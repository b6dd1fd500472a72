use wisu::config::{Args, SortType, TimeFilter, TimeMode};
use wisu::dir::{get_permission, normalize_path};
use wisu::export::{build_export_flat_list, OutputFormat};
use wisu::icons::get_icon_for_path;
use wisu::plugins::FilterRegistry;
use wisu::record::{extension_of, Metadata, RawRecord};
use wisu::sort::SortOptions;
use wisu::tree::Tree;

fn args() -> Args {
    Args {
        interactive: false,
        config: None,
        out: None,
        path: ".".to_string(),
        dirs_only: false,
        info: false,
        stats: false,
        hyperlinks: false,
        all: false,
        gitignore: false,
        icons: false,
        size: false,
        permissions: false,
        expand_level: None,
        level: None,
        files: None,
        files_only: false,
        sort: SortType::Name,
        dirs_first: false,
        case_sensitive: false,
        natural_sort: false,
        reverse: false,
        dotfiles_first: false,
        exclude_extensions: Vec::new(),
        time_filter: None,
    }
}

fn record(root: &str, rel: &str, is_dir: bool, len: u64) -> RawRecord {
    let path = format!("{root}/{rel}");
    let cut = path.rfind('/').unwrap();
    RawRecord {
        parent: Some(path[..cut].to_string()),
        file_name: path[cut + 1..].to_string(),
        relative: Some(rel.to_string()),
        depth: rel.split('/').count(),
        is_dir,
        metadata: Some(Metadata {
            len,
            is_dir,
            mode: Some(0o600),
            accessed: None,
            modified: None,
            created: None,
        }),
        path,
    }
}

#[test]
fn icons_follow_the_extension() {
    assert_eq!(get_icon_for_path("anything.rs", true), "📁");
    assert_eq!(get_icon_for_path("main.rs", false), "🦀");
    assert_eq!(get_icon_for_path("MAIN.RS", false), "🦀");
    assert_eq!(get_icon_for_path("script.py", false), "🐍");
    assert_eq!(get_icon_for_path("a.b.tar", false), "🗜️");
    assert_eq!(get_icon_for_path("Cargo.lock", false), "🔒");
    assert_eq!(get_icon_for_path("photo.JPeG", false), "🖼️");
    assert_eq!(get_icon_for_path("data.json", false), "⚙️");
    assert_eq!(get_icon_for_path("style.css", false), "🎨");
    assert_eq!(get_icon_for_path("x.conf", false), "🧩");
    assert_eq!(get_icon_for_path("noextension", false), "📄");
    assert_eq!(get_icon_for_path(".hidden", false), "📄");
    assert_eq!(get_icon_for_path("odd.unknown", false), "📄");
    assert_eq!(get_icon_for_path("", false), "📄");
}

#[test]
fn extensions_are_what_follows_the_last_dot() {
    assert_eq!(extension_of("a.txt").as_deref(), Some("txt"));
    assert_eq!(extension_of("a.tar.gz").as_deref(), Some("gz"));
    assert_eq!(extension_of(".bashrc"), None);
    assert_eq!(extension_of(".a.b").as_deref(), Some("b"));
    assert_eq!(extension_of("noext"), None);
    assert_eq!(extension_of("trailing.").as_deref(), Some(""));
    assert_eq!(extension_of(".."), None);
    assert_eq!(extension_of("."), None);
    assert_eq!(extension_of(""), None);
    assert_eq!(extension_of("é.ü").as_deref(), Some("ü"));
    for name in ["a.txt", "a.tar.gz", ".bashrc", ".a.b", "noext", "trailing.", "..", ".", "", "x..y"] {
        let expected = std::path::Path::new(name).extension().map(|e| e.to_str().unwrap());
        assert_eq!(extension_of(name).as_deref(), expected, "for {name}");
    }
}

#[test]
fn output_formats_are_read_in_any_case() {
    assert!(matches!(OutputFormat::from_str(&Some("json".to_string())), Some(OutputFormat::Json)));
    assert!(matches!(OutputFormat::from_str(&Some("XML".to_string())), Some(OutputFormat::Xml)));
    assert!(matches!(OutputFormat::from_str(&Some("Csv".to_string())), Some(OutputFormat::Csv)));
    assert!(OutputFormat::from_str(&Some("yaml".to_string())).is_none());
    assert!(OutputFormat::from_str(&Some(String::new())).is_none());
    assert!(OutputFormat::from_str(&None).is_none());
}

#[test]
fn permission_column_shows_kind_and_bits() {
    let meta = Metadata {
        len: 0,
        is_dir: true,
        mode: Some(0o40755),
        accessed: None,
        modified: None,
        created: None,
    };
    assert_eq!(get_permission(Some(meta)), "drwxr-xr-x ");
    assert_eq!(get_permission(Some(Metadata { is_dir: false, mode: Some(0o550), ..meta })), "-r-xr-x--- ");
    assert_eq!(get_permission(Some(Metadata { mode: None, ..meta })), "---------- ");
    assert_eq!(get_permission(None), "---------- ");
}

#[test]
fn paths_are_normalised_by_component() {
    let parts = |s: &[&str]| -> Vec<String> { s.iter().map(|p| p.to_string()).collect() };
    assert_eq!(normalize_path(&parts(&["/", "a", ".", "b", "..", "c"])), parts(&["/", "a", "c"]));
    assert_eq!(normalize_path(&parts(&["..", "a"])), parts(&["a"]));
    assert_eq!(normalize_path(&parts(&["a", "..", "..", "b"])), parts(&["b"]));
    assert_eq!(normalize_path(&parts(&[".", "."])), parts(&[]));
    assert_eq!(normalize_path(&parts(&["...", "a..", ".b"])), parts(&["...", "a..", ".b"]));
    assert!(normalize_path(&Vec::new()).is_empty());
}

#[test]
fn command_line_overrides_the_file() {
    let mut file = args();
    file.path = "/from/file".to_string();
    file.out = Some("json".to_string());
    file.level = Some(3);
    file.files = Some(9);
    file.all = true;
    file.sort = SortType::Size;
    file.reverse = true;
    file.exclude_extensions = vec!["tmp".to_string()];
    file.time_filter = Some(TimeFilter { mode: TimeMode::After, instant: 5 });
    let mut cli = args();
    cli.level = Some(1);
    cli.icons = true;
    cli.config = Some("cfg.toml".to_string());
    cli.sort = SortType::Name;
    let merged = Args::merge(file, cli);
    assert_eq!(merged.path, "/from/file");
    assert_eq!(merged.out.as_deref(), Some("json"));
    assert_eq!(merged.level, Some(1));
    assert_eq!(merged.files, Some(9));
    assert_eq!(merged.expand_level, None);
    assert_eq!(merged.config.as_deref(), Some("cfg.toml"));
    assert!(merged.all && merged.icons && merged.reverse);
    assert!(!merged.size && !merged.stats);
    assert_eq!(merged.sort, SortType::Name);
    assert_eq!(merged.exclude_extensions, vec!["tmp".to_string()]);
    assert!(merged.time_filter.is_some());

    let mut file = args();
    file.path = "/from/file".to_string();
    let mut cli = args();
    cli.path = "./here".to_string();
    cli.exclude_extensions = vec!["o".to_string()];
    let merged = Args::merge(file, cli);
    assert_eq!(merged.path, "./here");
    assert_eq!(merged.exclude_extensions, vec!["o".to_string()]);
}

#[test]
fn options_come_from_the_first_file_that_was_read() {
    let cli = || {
        let mut a = args();
        a.size = true;
        a
    };
    let file = |path: &str| {
        let mut a = args();
        a.path = path.to_string();
        a.info = true;
        a
    };
    let loaded = Args::load(cli(), Some(file("/named")), Some(file("/local")));
    assert_eq!(loaded.path, "/named");
    assert!(loaded.size && loaded.info);
    let loaded = Args::load(cli(), None, Some(file("/local")));
    assert_eq!(loaded.path, "/local");
    let loaded = Args::load(cli(), None, None);
    assert_eq!(loaded.path, ".");
    assert!(loaded.size && !loaded.info);
}

#[test]
fn sort_options_mirror_the_arguments() {
    let mut a = args();
    a.sort = SortType::Modified;
    a.dirs_first = true;
    a.natural_sort = true;
    let options: SortOptions = a.to_sort_options();
    assert_eq!(options.sort_type, wisu::sort::SortType::Modified);
    assert!(options.directories_first && options.natural_sort);
    assert!(!options.case_sensitive && !options.reverse && !options.dotfiles_first);
    assert_eq!(wisu::sort::SortType::from(SortType::Extension), wisu::sort::SortType::Extension);
    assert_eq!(wisu::sort::SortType::default(), wisu::sort::SortType::Name);
    assert_eq!(SortType::default(), SortType::Name);
}

#[test]
fn flat_export_lists_the_tree() {
    let mut outside = record("/elsewhere", "x", false, 3);
    outside.relative = None;
    outside.depth = 1;
    let mut top = record("/r", "", true, 0);
    top.relative = Some(String::new());
    top.file_name = "r".to_string();
    let records = vec![record("/r", "d", true, 0), record("/r", "d/f.txt", false, 42), outside, top];
    let mut with = args();
    with.permissions = true;
    with.files_only = false;
    let stages: FilterRegistry<fn(Tree) -> Tree> = FilterRegistry::new();
    let tree = Tree::prepare(&records, &with, "/r", &stages);
    let nodes = build_export_flat_list(&tree, &with, "r");
    let paths: Vec<&str> = nodes.iter().map(|n| n.path.as_str()).collect();
    assert_eq!(paths, vec!["./r/d", "./r/d/f.txt", "./r", "/elsewhere/x"]);
    assert_eq!(nodes[1].name, "f.txt");
    assert_eq!(nodes[1].size, Some(42));
    assert_eq!(nodes[0].file_count, Some(1));
    assert_eq!(nodes[0].dir_count, Some(0));
    assert_eq!(nodes[0].permissions, "drw------- ");
    assert!(nodes.iter().all(|n| n.children.is_none()));
    assert!(nodes[0].is_dir && !nodes[1].is_dir);

    let mut dirs = args();
    dirs.dirs_only = true;
    let tree = Tree::prepare(&records, &args(), "/r", &stages);
    let nodes = build_export_flat_list(&tree, &dirs, "r");
    let names: Vec<&str> = nodes.iter().map(|n| n.name.as_str()).collect();
    assert_eq!(names, vec!["d", "r"]);
    assert_eq!(nodes[0].permissions, "");
}

#[test]
fn hierarchical_export_nests_entries_below_their_directory() {
    let records = vec![
        record("/r", "d", true, 4096),
        record("/r", "d/f.txt", false, 42),
        record("/r", "d/sub", true, 4096),
        record("/r", "top.txt", false, 7),
    ];
    let stages: FilterRegistry<fn(Tree) -> Tree> = FilterRegistry::new();
    let mut with = args();
    with.size = true;
    let tree = Tree::prepare(&records, &with, "/r", &stages);
    let meta = Metadata {
        len: 4096,
        is_dir: true,
        mode: Some(0o755),
        accessed: None,
        modified: None,
        created: None,
    };
    let root = wisu::export::build_export_tree(&tree, &with, "/r", "r", Some(meta));
    assert_eq!((root.name.as_str(), root.path.as_str(), root.is_dir), ("r", "./r", true));
    assert_eq!(root.size, Some(4096));
    assert_eq!(root.permissions, "");
    let top = root.children.as_ref().unwrap();
    let names: Vec<&str> = top.iter().map(|n| n.name.as_str()).collect();
    assert_eq!(names, vec!["d", "top.txt"]);
    assert!(top[1].children.is_none());
    assert_eq!(top[1].size, Some(7));
    assert_eq!(top[1].path, "./r/top.txt");
    let inner = top[0].children.as_ref().unwrap();
    let names: Vec<&str> = inner.iter().map(|n| n.name.as_str()).collect();
    assert_eq!(names, vec!["f.txt", "sub"]);
    assert!(inner[1].children.is_none());
    assert_eq!(inner[0].dir_count, None);

    let mut dirs = args();
    dirs.dirs_only = true;
    dirs.permissions = true;
    let root = wisu::export::build_export_tree(&tree, &dirs, "/r", "r", None);
    assert!(!root.is_dir);
    assert_eq!(root.size, None);
    assert_eq!(root.permissions, "---------- ");
    let top = root.children.as_ref().unwrap();
    assert_eq!(top.len(), 1);
    assert_eq!(top[0].children.as_ref().unwrap().len(), 1);
    assert_eq!(top[0].children.as_ref().unwrap()[0].name, "sub");
}
