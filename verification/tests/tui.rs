use wisu::config::{Args, SortType};
use wisu::plugins::FilterRegistry;
use wisu::record::{Metadata, RawRecord};
use wisu::render::{classify_name, padding, row_text, NameClass};
use wisu::tree::{Tree, TreeEntry};
use wisu::tui::{Action, Key, Mode, Row, TuiApp};

fn record(root: &str, rel: &str, is_dir: bool, len: u64) -> RawRecord {
    let path = format!("{root}/{rel}");
    let cut = path.rfind('/').unwrap();
    RawRecord {
        parent: Some(path[..cut].to_string()),
        file_name: path[cut + 1..].to_string(),
        relative: Some(rel.to_string()),
        depth: rel.split('/').count(),
        is_dir,
        metadata: Some(Metadata {
            len,
            is_dir,
            mode: Some(0o644),
            accessed: None,
            modified: None,
            created: None,
        }),
        path,
    }
}

fn args() -> Args {
    Args {
        interactive: true,
        config: None,
        out: None,
        path: "/r".to_string(),
        dirs_only: false,
        info: false,
        stats: true,
        hyperlinks: false,
        all: false,
        gitignore: false,
        icons: false,
        size: false,
        permissions: false,
        expand_level: None,
        level: None,
        files: None,
        files_only: false,
        sort: SortType::Name,
        dirs_first: false,
        case_sensitive: false,
        natural_sort: false,
        reverse: false,
        dotfiles_first: false,
        exclude_extensions: Vec::new(),
        time_filter: None,
    }
}

fn entries_of(rels: &[(&str, bool)]) -> Vec<TreeEntry> {
    let records: Vec<RawRecord> =
        rels.iter().map(|(rel, is_dir)| record("/r", rel, *is_dir, 1)).collect();
    let stages: FilterRegistry<fn(Tree) -> Tree> = FilterRegistry::new();
    Tree::prepare(&records, &args(), "/r", &stages).tree_info
}

// a.txt, dir1, dir1/b.txt, dir1/sub, dir1/sub/c.txt, z.txt
fn sample() -> Vec<TreeEntry> {
    entries_of(&[
        ("a.txt", false),
        ("dir1", true),
        ("dir1/b.txt", false),
        ("dir1/sub", true),
        ("dir1/sub/c.txt", false),
        ("z.txt", false),
    ])
}

fn app() -> TuiApp {
    TuiApp::new(sample(), "/r".to_string())
}

fn shown(app: &TuiApp) -> Vec<String> {
    app.visible
        .iter()
        .map(|row| match row {
            Row::Parent => "..".to_string(),
            Row::Entry(i) => app.entries[*i].data.name.clone(),
        })
        .collect()
}

fn selected_name(app: &TuiApp) -> Option<String> {
    app.get_current_entry().map(|e| e.data.name.clone())
}

#[test]
fn a_new_explorer_shows_the_top_level() {
    let app = app();
    assert_eq!(shown(&app), vec!["a.txt", "dir1", "z.txt"]);
    assert_eq!(app.selected, Some(0));
    assert_eq!(app.mode, Mode::Normal);
    assert!(app.entries.iter().all(|e| !e.expanded));
    assert_eq!(app.current_dir, "/r");
    assert_eq!(app.root_dir, "/r");
}

#[test]
fn expanding_shows_children_and_collapsing_hides_all_below() {
    let mut app = app();
    app.move_selection_down();
    app.toggle_expansion();
    assert_eq!(shown(&app), vec!["a.txt", "dir1", "b.txt", "sub", "z.txt"]);
    assert_eq!(selected_name(&app).as_deref(), Some("dir1"));
    app.move_selection_down();
    app.move_selection_down();
    assert_eq!(selected_name(&app).as_deref(), Some("sub"));
    app.toggle_expansion();
    assert_eq!(shown(&app), vec!["a.txt", "dir1", "b.txt", "sub", "c.txt", "z.txt"]);
    assert_eq!(selected_name(&app).as_deref(), Some("sub"));
    // Collapse the outer directory: everything below it goes.
    app.selected = Some(1);
    app.toggle_expansion();
    assert_eq!(shown(&app), vec!["a.txt", "dir1", "z.txt"]);
    assert_eq!(app.selected, Some(1));
    // The inner flag was kept.
    app.toggle_expansion();
    assert_eq!(shown(&app), vec!["a.txt", "dir1", "b.txt", "sub", "c.txt", "z.txt"]);
}

#[test]
fn toggling_a_file_changes_nothing() {
    let mut app = app();
    app.toggle_expansion();
    assert_eq!(shown(&app), vec!["a.txt", "dir1", "z.txt"]);
    assert!(app.entries.iter().all(|e| !e.expanded));
    app.selected = None;
    app.toggle_expansion();
    assert_eq!(app.selected, None);
    app.selected = Some(17);
    app.toggle_expansion();
    assert_eq!(app.selected, Some(17));
}

#[test]
fn rebuilding_is_a_function_of_flags_and_focus() {
    let mut app = app();
    app.entries[1].expanded = true;
    app.entries[3].expanded = true;
    app.rebuild_visible_list();
    let first = shown(&app);
    app.rebuild_visible_list();
    app.rebuild_visible_list();
    assert_eq!(shown(&app), first);
    assert_eq!(first, vec!["a.txt", "dir1", "b.txt", "sub", "c.txt", "z.txt"]);
    // An expanded directory inside a collapsed one shows nothing.
    app.entries[1].expanded = false;
    app.rebuild_visible_list();
    assert_eq!(shown(&app), vec!["a.txt", "dir1", "z.txt"]);
    assert_eq!(app.selected, Some(0));
}

#[test]
fn selection_wraps_in_both_directions() {
    let mut app = app();
    app.move_selection_up();
    assert_eq!(app.selected, Some(2));
    app.move_selection_down();
    assert_eq!(app.selected, Some(0));
    app.move_selection_down();
    app.move_selection_down();
    assert_eq!(app.selected, Some(2));
    app.selected = None;
    app.move_selection_down();
    assert_eq!(app.selected, Some(0));
    app.selected = None;
    app.move_selection_up();
    assert_eq!(app.selected, Some(0));

    let mut empty = TuiApp::new(Vec::new(), "/r".to_string());
    assert!(empty.visible.is_empty());
    empty.move_selection_down();
    assert_eq!(empty.selected, Some(0));
    empty.selected = None;
    empty.move_selection_up();
    assert_eq!(empty.selected, None);
    assert!(empty.get_current_entry().is_none());
}

#[test]
fn initial_expansion_opens_the_upper_levels() {
    let mut app = app();
    app.apply_initial_expansion(None);
    assert!(app.entries.iter().all(|e| !e.expanded));
    app.apply_initial_expansion(Some(2));
    assert!(app.entries[1].expanded);
    assert!(!app.entries[3].expanded);
    assert_eq!(shown(&app), vec!["a.txt", "dir1", "b.txt", "sub", "z.txt"]);
    app.apply_initial_expansion(Some(3));
    assert!(app.entries[3].expanded);
    assert!(!app.entries[0].expanded);
    assert_eq!(shown(&app).len(), 6);
}

#[test]
fn entering_a_directory_shows_its_children_after_the_way_back() {
    let mut app = app();
    app.enter_directory(0);
    assert_eq!(app.current_dir, "/r");
    app.enter_directory(1);
    assert_eq!(app.current_dir, "/r/dir1");
    assert_eq!(app.current_parent.as_deref(), Some("/r"));
    assert_eq!(shown(&app), vec!["..", "b.txt", "sub"]);
    assert_eq!(app.selected, Some(0));
    assert!(app.get_current_entry().is_none());
    app.enter_directory(3);
    assert_eq!(shown(&app), vec!["..", "c.txt"]);
    assert_eq!(app.entries.len(), 6);
    app.go_up();
    assert_eq!(app.current_dir, "/r/dir1");
    assert_eq!(shown(&app), vec!["..", "b.txt", "sub"]);
    app.go_up();
    assert_eq!(app.current_dir, "/r");
    assert_eq!(shown(&app), vec!["a.txt", "dir1", "z.txt"]);
    app.go_up();
    assert_eq!(app.current_dir, "/r");
    assert_eq!(app.entries[1].data.files, Some(2));
}

#[test]
fn search_filters_the_focused_directory() {
    let mut app = app();
    app.start_search();
    assert_eq!(app.mode, Mode::Search);
    assert_eq!(app.backup.len(), 3);
    app.search_query = "TXT".to_string();
    app.apply_search_filter();
    assert_eq!(shown(&app), vec!["a.txt", "z.txt"]);
    assert_eq!(app.selected, Some(0));
    app.search_query = "b".to_string();
    app.apply_search_filter();
    assert!(shown(&app).is_empty());
    assert_eq!(app.selected, None);
    app.search_query = String::new();
    app.apply_search_filter();
    assert_eq!(shown(&app), vec!["a.txt", "dir1", "z.txt"]);
    app.search_query = "zzz".to_string();
    app.apply_search_filter();
    app.selected = Some(5);
    app.exit_search();
    assert_eq!(app.mode, Mode::Normal);
    assert_eq!(shown(&app), vec!["a.txt", "dir1", "z.txt"]);
    assert_eq!(app.selected, Some(2));
    assert!(app.backup.is_empty());
    assert!(app.search_query.is_empty());
    app.exit_search();
    assert_eq!(app.selected, Some(2));
}

#[test]
fn search_takes_regular_expressions() {
    let mut app = app();
    app.start_search();
    app.search_query = "r:^[a-d].*\\d$".to_string();
    app.apply_search_filter();
    assert_eq!(shown(&app), vec!["dir1"]);
    app.search_query = "r:t$".to_string();
    app.apply_search_filter();
    assert_eq!(shown(&app), vec!["a.txt", "z.txt"]);
    app.search_query = "r:(".to_string();
    app.apply_search_filter();
    assert!(shown(&app).is_empty());
    assert_eq!(app.selected, None);
    app.search_query = "r:".to_string();
    app.apply_search_filter();
    assert_eq!(shown(&app).len(), 3);
    // Without the prefix the same text is matched as it stands.
    app.search_query = "t$".to_string();
    app.apply_search_filter();
    assert!(shown(&app).is_empty());
    // The prefix alone is not enough for a regular expression.
    app.search_query = "r".to_string();
    app.apply_search_filter();
    assert_eq!(shown(&app), vec!["dir1"]);
}

#[test]
fn search_in_a_directory_keeps_the_way_back() {
    let mut app = app();
    app.enter_directory(1);
    app.start_search();
    app.search_query = "sub".to_string();
    app.apply_search_filter();
    assert_eq!(shown(&app), vec!["..", "sub"]);
    app.search_query = "c.txt".to_string();
    app.apply_search_filter();
    assert_eq!(shown(&app), vec![".."]);
    app.exit_search();
    assert_eq!(shown(&app), vec!["..", "b.txt", "sub"]);
}

#[test]
fn keys_edit_the_query_during_a_search() {
    let mut app = app();
    assert!(matches!(app.handle_key(Key::Char('/'), false), Action::Stay));
    assert_eq!(app.mode, Mode::Search);
    app.handle_key(Key::Char('z'), false);
    assert_eq!(app.search_query, "z");
    assert_eq!(shown(&app), vec!["z.txt"]);
    app.handle_key(Key::Char('q'), false);
    assert_eq!(app.search_query, "zq");
    assert!(shown(&app).is_empty());
    app.handle_key(Key::Backspace, false);
    assert_eq!(app.search_query, "z");
    assert_eq!(shown(&app), vec!["z.txt"]);
    match app.handle_key(Key::Enter, false) {
        Action::OpenFile(path) => assert_eq!(path, "/r/z.txt"),
        other => panic!("unexpected {other:?}"),
    }
    app.handle_key(Key::Backspace, false);
    app.handle_key(Key::Backspace, false);
    assert_eq!(app.search_query, "");
    assert_eq!(shown(&app), vec!["a.txt", "dir1", "z.txt"]);
    app.handle_key(Key::Up, false);
    assert_eq!(app.selected, Some(0));
    app.handle_key(Key::Esc, false);
    assert_eq!(app.mode, Mode::Normal);
}

#[test]
fn keys_navigate_outside_a_search() {
    let mut app = app();
    assert!(matches!(app.handle_key(Key::Char('q'), false), Action::Quit));
    assert!(matches!(app.handle_key(Key::Char('r'), false), Action::Refresh));
    assert!(matches!(app.handle_key(Key::Char('s'), false), Action::Stay));
    match app.handle_key(Key::Char('s'), true) {
        Action::PrintPath(path) => assert_eq!(path, "/r/a.txt"),
        other => panic!("unexpected {other:?}"),
    }
    match app.handle_key(Key::Char('t'), true) {
        Action::OpenTerminal(dir) => assert_eq!(dir, "/r"),
        other => panic!("unexpected {other:?}"),
    }
    app.handle_key(Key::Down, false);
    assert_eq!(app.selected, Some(1));
    match app.handle_key(Key::Char('t'), true) {
        Action::OpenTerminal(dir) => assert_eq!(dir, "/r/dir1"),
        other => panic!("unexpected {other:?}"),
    }
    assert_eq!(app.selected, Some(0));
    app.handle_key(Key::Down, false);
    assert!(matches!(app.handle_key(Key::Enter, false), Action::Stay));
    assert_eq!(shown(&app), vec!["a.txt", "dir1", "b.txt", "sub", "z.txt"]);
    app.handle_key(Key::Right, false);
    assert_eq!(shown(&app), vec!["a.txt", "dir1", "z.txt"]);
    app.handle_key(Key::Up, false);
    match app.handle_key(Key::Left, false) {
        Action::OpenFile(path) => assert_eq!(path, "/r/a.txt"),
        other => panic!("unexpected {other:?}"),
    }
    app.handle_key(Key::Down, false);
    app.handle_key(Key::Tab, false);
    assert_eq!(app.current_dir, "/r/dir1");
    assert_eq!(shown(&app), vec!["..", "b.txt", "sub"]);
    app.handle_key(Key::Enter, false);
    assert_eq!(app.current_dir, "/r");
    app.handle_key(Key::Down, false);
    app.handle_key(Key::Tab, false);
    app.handle_key(Key::Tab, false);
    assert_eq!(app.current_dir, "/r");
    assert!(matches!(app.handle_key(Key::Other, false), Action::Stay));
    assert!(matches!(app.handle_key(Key::Char('x'), true), Action::Stay));
}

#[test]
fn refresh_keeps_expansion_and_selection() {
    let mut app = app();
    app.entries[1].expanded = true;
    app.entries[3].expanded = true;
    app.rebuild_visible_list();
    app.selected = Some(2);
    assert_eq!(selected_name(&app).as_deref(), Some("b.txt"));
    let fresh = entries_of(&[
        ("a.txt", false),
        ("a_new.txt", false),
        ("dir1", true),
        ("dir1/a_first.txt", false),
        ("dir1/b.txt", false),
        ("dir1/sub", true),
        ("dir1/sub/c.txt", false),
        ("other", true),
        ("other/o.txt", false),
        ("z.txt", false),
    ]);
    app.refresh_entries(fresh);
    assert_eq!(app.entries.len(), 10);
    assert_eq!(selected_name(&app).as_deref(), Some("b.txt"));
    assert_eq!(
        shown(&app),
        vec!["a.txt", "a_new.txt", "dir1", "a_first.txt", "b.txt", "sub", "c.txt", "other", "z.txt"]
    );
    let expanded: Vec<&str> =
        app.entries.iter().filter(|e| e.expanded).map(|e| e.data.name.as_str()).collect();
    assert_eq!(expanded, vec!["dir1", "sub"]);
    assert_eq!(app.current_dir, "/r");

    // The selected file is gone: the first row is selected.
    app.refresh_entries(entries_of(&[("dir1", true), ("dir1/x", false), ("sub", false)]));
    assert_eq!(app.selected, Some(0));
    assert_eq!(shown(&app), vec!["dir1", "x", "sub"]);
    assert!(app.entries[0].expanded);
    assert!(!app.entries[2].expanded);
}

#[test]
fn refresh_during_a_search_filters_again() {
    let mut app = app();
    app.start_search();
    app.search_query = "txt".to_string();
    app.apply_search_filter();
    app.selected = Some(1);
    assert_eq!(selected_name(&app).as_deref(), Some("z.txt"));
    app.refresh_entries(entries_of(&[("a.txt", false), ("m.txt", false), ("n", true), ("z.txt", false)]));
    assert_eq!(shown(&app), vec!["a.txt", "m.txt", "z.txt"]);
    assert_eq!(selected_name(&app).as_deref(), Some("z.txt"));
    assert_eq!(app.mode, Mode::Search);
    app.exit_search();
    assert_eq!(shown(&app), vec!["a.txt", "m.txt", "n", "z.txt"]);
}

#[test]
fn rows_are_laid_out_column_by_column() {
    let records = vec![record("/r", "d", true, 0), record("/r", "d/f.rs", false, 2048)];
    let stages: FilterRegistry<fn(Tree) -> Tree> = FilterRegistry::new();
    let mut with = args();
    with.permissions = true;
    with.icons = true;
    with.info = true;
    let entries = Tree::prepare(&records, &with, "/r", &stages).tree_info;
    let mut app = TuiApp::new(entries, "/r".to_string());
    app.entries[0].expanded = true;
    let dir = row_text(&app.entries[0], &with);
    assert_eq!(dir.permissions, "drw-r--r--  ");
    assert_eq!(dir.indent, "    ");
    assert_eq!(dir.indicator, "▼ ");
    assert_eq!(dir.icon, "📁  ");
    assert_eq!(dir.name, "d");
    assert_eq!(dir.info, "[2.0 KiB, 1 files, 0 dirs]");
    let file = row_text(&app.entries[1], &with);
    assert_eq!(file.indent, "        ");
    assert_eq!(file.indicator, "  ");
    assert_eq!(file.info, "[2.0 KiB]");
    app.entries[0].expanded = false;
    let plain = row_text(&app.entries[0], &args());
    assert_eq!(plain.indicator, "▶ ");
    assert_eq!((plain.permissions.as_str(), plain.info.as_str()), ("", ""));
    let mut sizes = args();
    sizes.size = true;
    assert_eq!(row_text(&app.entries[0], &sizes).info, "");
    assert_eq!(row_text(&app.entries[1], &sizes).info, "[2.0 KiB]");

    assert_eq!(padding(80, 20, 10), 45);
    assert_eq!(padding(30, 20, 10), 0);
    assert_eq!(padding(10, 20, 0), 0);
    assert_eq!(padding(100, 65536 + 10, 5), 80);
}

#[test]
fn names_are_classed_for_styling() {
    let ext = |e: &str| Some(e.to_string());
    assert_eq!(classify_name(false, true, true, &ext("rs")), NameClass::Plain);
    assert_eq!(classify_name(true, true, true, &ext("rs")), NameClass::Directory);
    assert_eq!(classify_name(true, false, true, &ext("rs")), NameClass::Executable);
    assert_eq!(classify_name(true, false, false, &ext("RS")), NameClass::Source);
    assert_eq!(classify_name(true, false, false, &ext("tar")), NameClass::Archive);
    assert_eq!(classify_name(true, false, false, &ext("Jpeg")), NameClass::Image);
    assert_eq!(classify_name(true, false, false, &ext("mkv")), NameClass::Video);
    assert_eq!(classify_name(true, false, false, &ext("pptx")), NameClass::Document);
    assert_eq!(classify_name(true, false, false, &ext("xyz")), NameClass::OtherFile);
    assert_eq!(classify_name(true, false, false, &None), NameClass::Plain);
}
