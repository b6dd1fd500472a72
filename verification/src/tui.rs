//! The state of the interactive explorer: which entries are expanded, which
//! directory is in focus, what the search shows and where the selection is.

use crate::order::all_below;
use crate::record::{chars_of, clone_opt_string, opt_view};
use crate::text::{
    compile_regex, contains_text, lowercase, occurs_in, regex_accepts, regex_compiles,
    regex_is_match, text_equals, to_lowercase,
};
use crate::tree::TreeEntry;
use vstd::hash_map::StringHashMap;
use vstd::prelude::*;
use vstd::string::*;

verus! {

/// Whether keys navigate or edit the search query.
#[derive(Debug, Clone, Copy, PartialEq, Eq, Structural)]
pub enum Mode {
    Normal,
    Search,
}

/// A tree entry with its expansion flag.
#[derive(Debug)]
pub struct TuiEntry {
    pub data: TreeEntry,
    pub expanded: bool,
}

/// One row of the list on screen.
#[derive(Debug, Clone, Copy, PartialEq, Eq, Structural)]
pub enum Row {
    /// The way back to the directory above the one in focus. It stands for
    /// no entry: it is made whenever the rows are.
    Parent,
    /// The entry at this position.
    Entry(usize),
}

/// The state of the explorer.
#[derive(Debug)]
pub struct TuiApp {
    /// All entries of the tree, in listing order.
    pub entries: Vec<TuiEntry>,
    /// The rows on screen.
    pub visible: Vec<Row>,
    /// The selected row.
    pub selected: Option<usize>,
    pub mode: Mode,
    pub search_query: String,
    /// The rows as they were when the search began.
    pub backup: Vec<Row>,
    /// The directory in focus.
    pub current_dir: String,
    /// The directory above the one in focus, where that is known.
    pub current_parent: Option<String>,
    /// The directory that the scan started from.
    pub root_dir: String,
}

/// The expansion flags of the directories that enclose the next entry, outermost
/// first, after the first `upto` entries have been read: each entry cuts the
/// flags back to one less than its depth and, if it is a directory below
/// depth 0, adds its own.
pub open spec fn enclosing_flags(entries: Seq<TuiEntry>, upto: int) -> Seq<bool>
    decreases upto, 0nat,
{
    if upto <= 0 {
        Seq::empty()
    } else {
        let entry = entries[upto - 1];
        let cut = flags_above(entries, upto - 1);
        if entry.data.is_directory && entry.data.depth > 0 {
            cut.push(entry.expanded)
        } else {
            cut
        }
    }
}

/// The flags of the directories that enclose the entry at `i`.
pub open spec fn flags_above(entries: Seq<TuiEntry>, i: int) -> Seq<bool>
    decreases i, 1nat,
{
    if i < 0 {
        Seq::empty()
    } else {
        let before = enclosing_flags(entries, i);
        let keep = if entries[i].data.depth == 0 {
            0
        } else {
            entries[i].data.depth - 1
        };
        if before.len() <= keep {
            before
        } else {
            before.take(keep)
        }
    }
}

/// Every flag is set.
pub open spec fn all_set(flags: Seq<bool>) -> bool {
    forall|k: int| 0 <= k < flags.len() ==> flags[k]
}

/// Whether the entry at `i` is on screen while the whole tree is in focus: it
/// is at depth 0, or every directory that encloses it is expanded.
pub open spec fn shown_in_tree(entries: Seq<TuiEntry>, i: int) -> bool {
    entries[i].data.depth == 0 || all_set(flags_above(entries, i))
}

/// Whether the entry at `i` is on screen while `focus` is in focus: it lies
/// directly in that directory.
pub open spec fn shown_in_dir(entries: Seq<TuiEntry>, focus: Seq<char>, i: int) -> bool {
    opt_view(entries[i].data.parent) == Some(focus)
}

/// Whether the entry at `i` is on screen.
pub open spec fn is_shown(entries: Seq<TuiEntry>, focus: Seq<char>, root: Seq<char>, i: int) -> bool {
    if focus == root {
        shown_in_tree(entries, i)
    } else {
        shown_in_dir(entries, focus, i)
    }
}

/// The rows for the first `upto` entries: the way back first when a
/// directory other than the root is in focus, then the entries on screen.
pub open spec fn rows_upto(entries: Seq<TuiEntry>, focus: Seq<char>, root: Seq<char>, upto: int) -> Seq<
    Row,
>
    decreases upto,
{
    if upto <= 0 {
        if focus == root {
            Seq::empty()
        } else {
            seq![Row::Parent]
        }
    } else {
        let before = rows_upto(entries, focus, root, upto - 1);
        if is_shown(entries, focus, root, upto - 1) {
            before.push(Row::Entry((upto - 1) as usize))
        } else {
            before
        }
    }
}

/// The rows on screen: a function of the entries, their flags and the focus alone.
pub open spec fn visible_rows(entries: Seq<TuiEntry>, focus: Seq<char>, root: Seq<char>) -> Seq<Row> {
    rows_upto(entries, focus, root, entries.len() as int)
}

/// Every row that stands for an entry names one of the `count` entries.
pub open spec fn rows_in_range(rows: Seq<Row>, count: nat) -> bool {
    forall|k: int| 0 <= k < rows.len() ==> (#[trigger] rows[k] matches Row::Entry(i) ==> i < count)
}

/// The rows made from the entries name entries that exist.
pub proof fn lemma_rows_in_range(entries: Seq<TuiEntry>, focus: Seq<char>, root: Seq<char>, upto: int)
    requires
        upto <= entries.len() <= usize::MAX,
    ensures
        rows_in_range(rows_upto(entries, focus, root, upto), entries.len()),
    decreases upto,
{
    if upto > 0 {
        lemma_rows_in_range(entries, focus, root, upto - 1);
    }
}

/// Position of the first among the first `upto` rows whose entry has the path `path`.
pub open spec fn row_of_path(rows: Seq<Row>, entries: Seq<TuiEntry>, path: Seq<char>, upto: int) -> Option<
    int,
>
    decreases upto,
{
    if upto <= 0 {
        None
    } else {
        match row_of_path(rows, entries, path, upto - 1) {
            Some(k) => Some(k),
            None => match rows[upto - 1] {
                Row::Entry(i) => if entries[i as int].data.path@ == path {
                    Some(upto - 1)
                } else {
                    None
                },
                Row::Parent => None,
            },
        }
    }
}

/// The row below `selected` among `count` rows, the first after the last.
pub open spec fn row_below(selected: Option<usize>, count: nat) -> usize {
    match selected {
        Some(i) => if i + 1 >= count {
            0
        } else {
            (i + 1) as usize
        },
        None => 0,
    }
}

/// The row above `selected` among `count` rows, the last before the first.
pub open spec fn row_above(selected: Option<usize>, count: nat) -> usize {
    match selected {
        Some(i) => if i == 0 {
            (count - 1) as usize
        } else {
            (i - 1) as usize
        },
        None => 0,
    }
}

/// The entry that the selected row stands for, if it stands for one.
pub open spec fn selected_entry(rows: Seq<Row>, selected: Option<usize>) -> Option<usize> {
    match selected {
        Some(s) => if s < rows.len() {
            match rows[s as int] {
                Row::Entry(i) => Some(i),
                Row::Parent => None,
            }
        } else {
            None
        },
        None => None,
    }
}

/// The entries with the flag of the one at `at` flipped.
pub open spec fn flipped(entries: Seq<TuiEntry>, at: int) -> Seq<TuiEntry> {
    entries.update(at, TuiEntry { data: entries[at].data, expanded: !entries[at].expanded })
}

/// Where the selection goes after the rows were made anew: to the row of
/// `path` if it has one, else to where it was, or to the last row if that
/// is no more.
pub open spec fn relocated(rows: Seq<Row>, entries: Seq<TuiEntry>, path: Seq<char>, was: usize) -> usize {
    match row_of_path(rows, entries, path, rows.len() as int) {
        Some(k) => k as usize,
        None => if rows.len() == 0 {
            0
        } else if was < rows.len() {
            was
        } else {
            (rows.len() - 1) as usize
        },
    }
}

/// The row found for a path is a row of an entry with that path.
pub proof fn lemma_row_of_path_in_range(rows: Seq<Row>, entries: Seq<TuiEntry>, path: Seq<char>, upto: int)
    requires
        upto <= rows.len(),
    ensures
        row_of_path(rows, entries, path, upto) matches Some(k) ==> 0 <= k < upto && (
        rows[k] matches Row::Entry(i) && entries[i as int].data.path@ == path),
    decreases upto,
{
    if upto > 0 {
        lemma_row_of_path_in_range(rows, entries, path, upto - 1);
    }
}

fn find_row(rows: &Vec<Row>, entries: &Vec<TuiEntry>, path: &str) -> (found: Option<usize>)
    requires
        rows_in_range(rows@, entries@.len()),
    ensures
        match found {
            Some(k) => row_of_path(rows@, entries@, path@, rows@.len() as int) == Some(k as int),
            None => row_of_path(rows@, entries@, path@, rows@.len() as int) is None,
        },
{
    let mut k: usize = 0;
    while k < rows.len()
        invariant
            k <= rows@.len(),
            rows_in_range(rows@, entries@.len()),
            row_of_path(rows@, entries@, path@, k as int) is None,
        decreases rows@.len() - k,
    {
        if let Row::Entry(i) = rows[k] {
            if text_equals(entries[i].data.path.as_str(), path) {
                proof {
                    lemma_row_of_path_stays(rows@, entries@, path@, k + 1, rows@.len() as int);
                }
                return Some(k);
            }
        }
        k += 1;
    }
    None
}

proof fn lemma_row_of_path_stays(rows: Seq<Row>, entries: Seq<TuiEntry>, path: Seq<char>, at: int, upto: int)
    requires
        at <= upto,
        row_of_path(rows, entries, path, at) is Some,
    ensures
        row_of_path(rows, entries, path, upto) == row_of_path(rows, entries, path, at),
    decreases upto - at,
{
    if at < upto {
        lemma_row_of_path_stays(rows, entries, path, at, upto - 1);
    }
}

fn copy_rows(rows: &Vec<Row>) -> (copy: Vec<Row>)
    ensures
        copy@ == rows@,
{
    let mut copy: Vec<Row> = Vec::new();
    let mut k: usize = 0;
    while k < rows.len()
        invariant
            k <= rows@.len(),
            copy@ == rows@.take(k as int),
        decreases rows@.len() - k,
    {
        copy.push(rows[k]);
        k += 1;
    }
    copy
}

fn all_true(flags: &Vec<bool>) -> (all: bool)
    ensures
        all == all_set(flags@),
{
    let mut k: usize = 0;
    while k < flags.len()
        invariant
            k <= flags@.len(),
            forall|j: int| 0 <= j < k ==> flags@[j],
        decreases flags@.len() - k,
    {
        if !flags[k] {
            return false;
        }
        k += 1;
    }
    true
}

/// Whether the other fields of the state are as they were.
pub open spec fn same_focus(before: TuiApp, after: TuiApp) -> bool {
    &&& after.current_dir == before.current_dir
    &&& after.current_parent == before.current_parent
    &&& after.root_dir == before.root_dir
}

/// Whether mode, query and kept rows are as they were.
pub open spec fn same_search(before: TuiApp, after: TuiApp) -> bool {
    &&& after.mode == before.mode
    &&& after.search_query == before.search_query
    &&& after.backup == before.backup
}

/// The rows were made anew and the selection put on the first.
pub open spec fn rebuilt(before: TuiApp, after: TuiApp) -> bool {
    &&& after.visible@ == visible_rows(before.entries@, before.current_dir@, before.root_dir@)
    &&& after.selected == Some(0usize)
    &&& after.entries == before.entries
    &&& same_search(before, after)
    &&& same_focus(before, after)
}

/// The selected directory was expanded or collapsed and the selection kept
/// on it; nothing changed if the selected row is no directory.
pub open spec fn toggled(before: TuiApp, after: TuiApp) -> bool {
    match selected_entry(before.visible@, before.selected) {
        Some(i) => if before.entries@[i as int].data.is_directory {
            &&& after.entries@ == flipped(before.entries@, i as int)
            &&& after.visible@ == visible_rows(after.entries@, before.current_dir@, before.root_dir@)
            &&& after.selected == Some(
                relocated(
                    after.visible@,
                    after.entries@,
                    before.entries@[i as int].data.path@,
                    before.selected->0,
                ),
            )
            &&& same_search(before, after)
            &&& same_focus(before, after)
        } else {
            after == before
        },
        None => after == before,
    }
}

/// Only the selection changed, to `selected`.
pub open spec fn reselected(before: TuiApp, after: TuiApp, selected: Option<usize>) -> bool {
    &&& after.selected == selected
    &&& after.entries == before.entries
    &&& after.visible == before.visible
    &&& same_search(before, after)
    &&& same_focus(before, after)
}

/// The selection moved one row down, wrapping; not at all without rows.
pub open spec fn moved_down(before: TuiApp, after: TuiApp) -> bool {
    reselected(
        before,
        after,
        if before.visible@.len() == 0 {
            before.selected
        } else {
            Some(row_below(before.selected, before.visible@.len()))
        },
    )
}

/// The selection moved one row up, wrapping; not at all without rows.
pub open spec fn moved_up(before: TuiApp, after: TuiApp) -> bool {
    reselected(
        before,
        after,
        if before.visible@.len() == 0 {
            before.selected
        } else {
            Some(row_above(before.selected, before.visible@.len()))
        },
    )
}

/// A search began: from normal mode the rows were kept; the query is empty.
pub open spec fn search_started(before: TuiApp, after: TuiApp) -> bool {
    &&& after.mode == Mode::Search
    &&& after.search_query@ == Seq::<char>::empty()
    &&& after.backup@ == if before.mode == Mode::Normal {
        before.visible@
    } else {
        before.backup@
    }
    &&& after.entries == before.entries
    &&& after.visible == before.visible
    &&& after.selected == before.selected
    &&& same_focus(before, after)
}

/// A search ended: the kept rows are back and the selection is within them.
pub open spec fn search_ended(before: TuiApp, after: TuiApp) -> bool {
    if before.mode != Mode::Search {
        after == before
    } else {
        &&& after.mode == Mode::Normal
        &&& after.visible@ == before.backup@
        &&& after.backup@ == Seq::<Row>::empty()
        &&& after.search_query@ == Seq::<char>::empty()
        &&& after.selected == match before.selected {
            Some(s) => if s >= before.backup@.len() {
                if before.backup@.len() == 0 {
                    None
                } else {
                    Some((before.backup@.len() - 1) as usize)
                }
            } else {
                Some(s)
            },
            None => None,
        }
        &&& after.entries == before.entries
        &&& same_focus(before, after)
    }
}

/// Whether a query is a regular expression: it begins with `r:`.
pub open spec fn is_regex_query(query: Seq<char>) -> bool {
    query.len() >= 2 && query[0] == 'r' && query[1] == ':'
}

/// Whether a name matches a query: a query that begins with `r:` as the
/// regular expression after the prefix, which matches nothing if it does
/// not compile; any other query if it occurs in the name, case set aside.
pub open spec fn matches_query(name: Seq<char>, query: Seq<char>) -> bool {
    if is_regex_query(query) {
        regex_compiles(query.skip(2)) && regex_accepts(query.skip(2), name)
    } else {
        occurs_in(lowercase(query), lowercase(name))
    }
}

/// Positions, ascending, of the entries among the first `upto` that lie
/// directly in the directory `focus`.
pub open spec fn candidates_upto(entries: Seq<TuiEntry>, focus: Seq<char>, upto: int) -> Seq<usize>
    decreases upto,
{
    if upto <= 0 {
        Seq::empty()
    } else {
        let before = candidates_upto(entries, focus, upto - 1);
        if shown_in_dir(entries, focus, upto - 1) {
            before.push((upto - 1) as usize)
        } else {
            before
        }
    }
}

/// The rows of those among the first `upto` candidates whose name matches the query.
pub open spec fn matched_upto(entries: Seq<TuiEntry>, candidates: Seq<usize>, query: Seq<char>, upto: int) -> Seq<
    Row,
>
    decreases upto,
{
    if upto <= 0 {
        Seq::empty()
    } else {
        let before = matched_upto(entries, candidates, query, upto - 1);
        if matches_query(entries[candidates[upto - 1] as int].data.name@, query) {
            before.push(Row::Entry(candidates[upto - 1]))
        } else {
            before
        }
    }
}

/// The way back, where a directory other than the root is in focus.
pub open spec fn way_back(focus: Seq<char>, root: Seq<char>) -> Seq<Row> {
    if focus == root {
        Seq::empty()
    } else {
        seq![Row::Parent]
    }
}

/// The rows that a search shows: the way back, then the entries directly in
/// the focused directory whose name matches the query.
pub open spec fn search_rows(entries: Seq<TuiEntry>, focus: Seq<char>, root: Seq<char>, query: Seq<char>) -> Seq<
    Row,
> {
    let candidates = candidates_upto(entries, focus, entries.len() as int);
    way_back(focus, root) + matched_upto(entries, candidates, query, candidates.len() as int)
}

/// The rows were filtered by `query`, or made anew if it is empty; nothing
/// is said of the query that the state holds.
pub open spec fn filtered_by(before: TuiApp, query: Seq<char>, after: TuiApp) -> bool {
    &&& after.visible@ == if query.len() == 0 {
        visible_rows(before.entries@, before.current_dir@, before.root_dir@)
    } else {
        search_rows(before.entries@, before.current_dir@, before.root_dir@, query)
    }
    &&& after.selected == if query.len() > 0 && after.visible@.len() == 0 {
        None
    } else {
        Some(0usize)
    }
    &&& after.entries == before.entries
    &&& after.mode == before.mode
    &&& after.backup == before.backup
    &&& same_focus(before, after)
}

/// The rows were filtered by the query of the state, which stays.
pub open spec fn filtered(before: TuiApp, after: TuiApp) -> bool {
    filtered_by(before, before.search_query@, after) && after.search_query == before.search_query
}

/// A key of the keyboard, as far as the explorer tells keys apart.
#[derive(Debug, Clone, Copy, PartialEq, Eq, Structural)]
pub enum Key {
    Char(char),
    Backspace,
    Esc,
    Enter,
    Left,
    Right,
    Up,
    Down,
    Tab,
    Other,
}

/// What is to be done outside the state after a key.
#[derive(Debug)]
pub enum Action {
    /// Nothing but drawing the rows.
    Stay,
    /// Leave the explorer.
    Quit,
    /// Scan again and hand the new entries to `refresh_entries`.
    Refresh,
    /// Leave the explorer and print this path.
    PrintPath(String),
    /// Open this file with the program that the system has for it.
    OpenFile(String),
    /// Open a terminal in this directory.
    OpenTerminal(String),
}

/// The directory in which a terminal opens for the entry at `i`: the entry
/// if it is a directory, else the directory it lies in, or the focused one
/// where that is not known.
pub open spec fn terminal_dir(app: TuiApp, i: int) -> Seq<char> {
    let entry = app.entries@[i].data;
    if entry.is_directory {
        entry.path@
    } else {
        match entry.parent {
            Some(p) => p@,
            None => app.current_dir@,
        }
    }
}

/// What a key does while the query is edited.
pub open spec fn edited(before: TuiApp, key: Key, after: TuiApp, action: Action) -> bool {
    match key {
        Key::Backspace => {
            &&& after.search_query@ == if before.search_query@.len() > 0 {
                before.search_query@.drop_last()
            } else {
                before.search_query@
            }
            &&& filtered_by(before, after.search_query@, after)
            &&& action is Stay
        },
        Key::Char(c) => {
            &&& after.search_query@ == before.search_query@.push(c)
            &&& filtered_by(before, after.search_query@, after)
            &&& action is Stay
        },
        Key::Esc => search_ended(before, after) && action is Stay,
        Key::Enter => opened(before, after, action, false),
        _ => after == before && action is Stay,
    }
}

/// The selected row was opened: a directory expands or collapses, a file is
/// handed out to be opened, and the way back leads up if `with_parent`.
pub open spec fn opened(before: TuiApp, after: TuiApp, action: Action, with_parent: bool) -> bool {
    match before.selected {
        Some(s) => if s < before.visible@.len() {
            match before.visible@[s as int] {
                Row::Entry(i) => if before.entries@[i as int].data.is_directory {
                    toggled(before, after) && action is Stay
                } else {
                    after == before && action == Action::OpenFile(
                        before.entries@[i as int].data.path,
                    )
                },
                Row::Parent => if with_parent {
                    went_up(before, after) && action is Stay
                } else {
                    after == before && action is Stay
                },
            }
        } else {
            after == before && action is Stay
        },
        None => after == before && action is Stay,
    }
}

/// What a key does while the rows are navigated.
pub open spec fn navigated(before: TuiApp, key: Key, ctrl: bool, after: TuiApp, action: Action) -> bool {
    match key {
        Key::Char(c) => if c == 'q' {
            after == before && action is Quit
        } else if c == 'r' {
            after == before && action is Refresh
        } else if c == 's' && ctrl {
            after == before && match selected_entry(before.visible@, before.selected) {
                Some(i) => action == Action::PrintPath(before.entries@[i as int].data.path),
                None => action is Stay,
            }
        } else if c == 't' && ctrl {
            match selected_entry(before.visible@, before.selected) {
                Some(i) => rebuilt(before, after) && (action matches Action::OpenTerminal(dir)
                    && dir@ == terminal_dir(before, i as int)),
                None => after == before && action is Stay,
            }
        } else if c == '/' {
            search_started(before, after) && action is Stay
        } else {
            after == before && action is Stay
        },
        Key::Right | Key::Left | Key::Enter => opened(before, after, action, true),
        Key::Tab => action is Stay && match before.selected {
            Some(s) => if s < before.visible@.len() {
                match before.visible@[s as int] {
                    Row::Parent => if before.current_dir@ == before.root_dir@
                        || before.current_parent is None {
                        rebuilt(before, after)
                    } else {
                        went_up(before, after)
                    },
                    Row::Entry(i) => if before.entries@[i as int].data.is_directory {
                        entered(before, after, i as int)
                    } else {
                        rebuilt(before, after)
                    },
                }
            } else {
                after == before
            },
            None => after == before,
        },
        Key::Up => moved_up(before, after) && action is Stay,
        Key::Down => moved_down(before, after) && action is Stay,
        _ => after == before && action is Stay,
    }
}

/// The directory at `at` came into focus; nothing changed if it is no directory.
pub open spec fn entered(before: TuiApp, after: TuiApp, at: int) -> bool {
    if before.entries@[at].data.is_directory {
        &&& after.current_dir@ == before.entries@[at].data.path@
        &&& opt_view(after.current_parent) == opt_view(before.entries@[at].data.parent)
        &&& after.root_dir == before.root_dir
        &&& after.visible@ == visible_rows(before.entries@, after.current_dir@, before.root_dir@)
        &&& after.selected == Some(0usize)
        &&& after.entries == before.entries
        &&& same_search(before, after)
    } else {
        after == before
    }
}

/// The parent path of the first among the first `upto` entries that has the
/// path `path`, if there is such an entry and it has a parent path.
pub open spec fn parent_of_path(entries: Seq<TuiEntry>, path: Seq<char>, upto: int) -> Option<Seq<char>>
    decreases upto,
{
    if upto <= 0 {
        None
    } else if exists_with_path(entries, path, upto - 1) {
        parent_of_path(entries, path, upto - 1)
    } else if entries[upto - 1].data.path@ == path {
        opt_view(entries[upto - 1].data.parent)
    } else {
        None
    }
}

/// Whether one of the first `upto` entries has the path `path`.
pub open spec fn exists_with_path(entries: Seq<TuiEntry>, path: Seq<char>, upto: int) -> bool
    decreases upto,
{
    if upto <= 0 {
        false
    } else {
        exists_with_path(entries, path, upto - 1) || entries[upto - 1].data.path@ == path
    }
}

/// The focus moved to the directory above; it stays where it is at the root
/// and where the directory above is not known.
pub open spec fn went_up(before: TuiApp, after: TuiApp) -> bool {
    if before.current_dir@ == before.root_dir@ {
        after == before
    } else {
        match before.current_parent {
            Some(parent) => {
                &&& after.current_dir@ == parent@
                &&& opt_view(after.current_parent) == parent_of_path(
                    before.entries@,
                    parent@,
                    before.entries@.len() as int,
                )
                &&& after.root_dir == before.root_dir
                &&& after.visible@ == visible_rows(before.entries@, parent@, before.root_dir@)
                &&& after.selected == Some(0usize)
                &&& after.entries == before.entries
                &&& same_search(before, after)
            },
            None => after == before,
        }
    }
}

/// Whether a directory with the path `path` was expanded.
pub open spec fn was_expanded(entries: Seq<TuiEntry>, path: Seq<char>, upto: int) -> bool {
    exists|j: int|
        0 <= j < upto && (#[trigger] entries[j]).expanded && entries[j].data.is_directory
            && entries[j].data.path@ == path
}

/// The new entries, each directory expanded if a directory with its path was.
pub open spec fn carried_over(before: Seq<TuiEntry>, fresh: Seq<TreeEntry>, after: Seq<TuiEntry>) -> bool {
    &&& after.len() == fresh.len()
    &&& forall|i: int|
        0 <= i < fresh.len() ==> (#[trigger] after[i]).data == fresh[i] && after[i].expanded == (
        fresh[i].is_directory && was_expanded(before, fresh[i].path@, before.len() as int))
}

/// The path of the entry under the selection.
pub open spec fn selected_path(app: TuiApp) -> Option<Seq<char>> {
    match selected_entry(app.visible@, app.selected) {
        Some(i) => Some(app.entries@[i as int].data.path@),
        None => None,
    }
}

/// The entries were replaced by fresh ones. Every directory that was
/// expanded and is still there is expanded; the rows are made anew, and
/// filtered again during a search; the selection is on the path it was on if
/// that path has a row, else on the first row.
pub open spec fn refreshed(before: TuiApp, fresh: Seq<TreeEntry>, after: TuiApp) -> bool {
    let searching = before.mode == Mode::Search;
    let plain = visible_rows(after.entries@, before.current_dir@, before.root_dir@);
    let rows = if searching && before.search_query@.len() > 0 {
        search_rows(after.entries@, before.current_dir@, before.root_dir@, before.search_query@)
    } else {
        plain
    };
    let first: Option<usize> = if rows.len() == 0 && searching && before.search_query@.len() > 0 {
        None
    } else {
        Some(0usize)
    };
    &&& carried_over(before.entries@, fresh, after.entries@)
    &&& after.visible@ == rows
    &&& after.backup@ == if searching {
        plain
    } else {
        Seq::<Row>::empty()
    }
    &&& after.selected == match selected_path(before) {
        Some(path) => match row_of_path(rows, after.entries@, path, rows.len() as int) {
            Some(k) => Some(k as usize),
            None => first,
        },
        None => first,
    }
    &&& after.mode == before.mode
    &&& after.search_query == before.search_query
    &&& same_focus(before, after)
}

impl TuiApp {
    /// The rows name entries that exist.
    pub open spec fn wf(self) -> bool {
        &&& rows_in_range(self.visible@, self.entries@.len())
        &&& rows_in_range(self.backup@, self.entries@.len())
    }

    /// Wraps the entries of a tree, all collapsed, with the whole tree in focus.
    pub fn new(entries: Vec<TreeEntry>, current_dir: String) -> (app: TuiApp)
        ensures
            app.wf(),
            app.entries@.len() == entries@.len(),
            forall|i: int|
                0 <= i < entries@.len() ==> (#[trigger] app.entries@[i]).data == entries@[i]
                    && !app.entries@[i].expanded,
            app.visible@ == visible_rows(app.entries@, current_dir@, current_dir@),
            app.selected == Some(0usize),
            app.mode == Mode::Normal,
            app.search_query@ == Seq::<char>::empty(),
            app.backup@ == Seq::<Row>::empty(),
            app.current_dir@ == current_dir@,
            app.root_dir@ == current_dir@,
            app.current_parent is None,
    {
        let none: StringHashMap<bool> = StringHashMap::new();
        let wrapped = wrap_entries(entries, &none, Ghost(Seq::empty()));
        let root_dir = current_dir.clone();
        let mut app = TuiApp {
            entries: wrapped,
            visible: Vec::new(),
            selected: None,
            mode: Mode::Normal,
            search_query: String::new(),
            backup: Vec::new(),
            current_dir,
            current_parent: None,
            root_dir,
        };
        app.rebuild_visible_list();
        app
    }

    /// Expands every directory above the given depth and makes the rows anew.
    pub fn apply_initial_expansion(&mut self, expand_level: Option<usize>)
        requires
            old(self).wf(),
        ensures
            final(self).wf(),
            expand_level is None ==> *final(self) == *old(self),
            expand_level matches Some(level) ==> {
                &&& final(self).entries@.len() == old(self).entries@.len()
                &&& forall|i: int|
                    0 <= i < old(self).entries@.len() ==> (#[trigger] final(self).entries@[i]).data
                        == old(self).entries@[i].data && final(self).entries@[i].expanded == (
                    old(self).entries@[i].expanded || (old(self).entries@[i].data.is_directory
                        && old(self).entries@[i].data.depth < level))
                &&& final(self).visible@ == visible_rows(
                    final(self).entries@,
                    old(self).current_dir@,
                    old(self).root_dir@,
                )
                &&& final(self).selected == Some(0usize)
                &&& same_search(*old(self), *final(self))
                &&& same_focus(*old(self), *final(self))
            },
    {
        if let Some(level) = expand_level {
            let mut i: usize = 0;
            while i < self.entries.len()
                invariant
                    i <= self.entries@.len(),
                    self.entries@.len() == old(self).entries@.len(),
                    self.visible == old(self).visible,
                    self.selected == old(self).selected,
                    same_search(*old(self), *self),
                    same_focus(*old(self), *self),
                    forall|j: int|
                        0 <= j < self.entries@.len() ==> (#[trigger] self.entries@[j]).data == old(
                            self,
                        ).entries@[j].data,
                    forall|j: int|
                        0 <= j < i ==> (#[trigger] self.entries@[j]).expanded == (old(
                            self,
                        ).entries@[j].expanded || (old(self).entries@[j].data.is_directory && old(
                            self,
                        ).entries@[j].data.depth < level)),
                    forall|j: int|
                        i <= j < self.entries@.len() ==> (#[trigger] self.entries@[j]).expanded
                            == old(self).entries@[j].expanded,
                decreases self.entries@.len() - i,
            {
                if self.entries[i].data.is_directory && self.entries[i].data.depth < level {
                    self.entries[i].expanded = true;
                }
                i += 1;
            }
            self.rebuild_visible_list();
        }
    }

    /// Makes the rows anew from the entries, their flags and the focus, and
    /// puts the selection on the first row.
    pub fn rebuild_visible_list(&mut self)
        ensures
            rebuilt(*old(self), *final(self)),
            rows_in_range(final(self).visible@, old(self).entries@.len()),
    {
        let at_root = text_equals(self.current_dir.as_str(), self.root_dir.as_str());
        let mut rows: Vec<Row> = Vec::new();
        if !at_root {
            rows.push(Row::Parent);
        }
        let mut flags: Vec<bool> = Vec::new();
        let count: usize = self.entries.len();
        let mut idx: usize = 0;
        while idx < count
            invariant
                idx <= count,
                count == self.entries@.len(),
                *self == *old(self),
                at_root == (self.current_dir@ == self.root_dir@),
                flags@ == enclosing_flags(self.entries@, idx as int),
                rows@ == rows_upto(self.entries@, self.current_dir@, self.root_dir@, idx as int),
            decreases count - idx,
        {
            let entry = &self.entries[idx];
            let keep: usize = if entry.data.depth == 0 {
                0
            } else {
                entry.data.depth - 1
            };
            flags.truncate(keep);
            assert(flags@ =~= flags_above(self.entries@, idx as int));
            let shown = if at_root {
                entry.data.depth == 0 || all_true(&flags)
            } else {
                match &entry.data.parent {
                    Some(p) => text_equals(p.as_str(), self.current_dir.as_str()),
                    None => false,
                }
            };
            if shown {
                rows.push(Row::Entry(idx));
            }
            if entry.data.is_directory && entry.data.depth > 0 {
                flags.push(entry.expanded);
            }
            idx += 1;
        }
        proof {
            lemma_rows_in_range(
                self.entries@,
                self.current_dir@,
                self.root_dir@,
                count as int,
            );
        }
        self.visible = rows;
        self.selected = Some(0);
    }

    /// Expands or collapses the selected directory, makes the rows anew and
    /// keeps the selection on that directory.
    pub fn toggle_expansion(&mut self)
        requires
            old(self).wf(),
        ensures
            final(self).wf(),
            toggled(*old(self), *final(self)),
    {
        let sel_idx: usize = match self.selected {
            Some(s) => s,
            None => {
                return ;
            },
        };
        if sel_idx >= self.visible.len() {
            return ;
        }
        let entry_idx: usize = match self.visible[sel_idx] {
            Row::Entry(i) => i,
            Row::Parent => {
                return ;
            },
        };
        if !self.entries[entry_idx].data.is_directory {
            return ;
        }
        let path = self.entries[entry_idx].data.path.clone();
        let flag = self.entries[entry_idx].expanded;
        self.entries[entry_idx].expanded = !flag;
        self.rebuild_visible_list();
        let count: usize = self.visible.len();
        let new_pos: usize = match find_row(&self.visible, &self.entries, path.as_str()) {
            Some(k) => k,
            None => if count == 0 {
                0
            } else if sel_idx < count {
                sel_idx
            } else {
                count - 1
            },
        };
        self.selected = Some(new_pos);
    }

    /// Moves the selection one row down, from the last row to the first.
    pub fn move_selection_down(&mut self)
        ensures
            moved_down(*old(self), *final(self)),
    {
        let count: usize = self.visible.len();
        if count == 0 {
            return ;
        }
        let next: usize = match self.selected {
            Some(i) => if i >= count - 1 {
                0
            } else {
                i + 1
            },
            None => 0,
        };
        self.selected = Some(next);
    }

    /// Moves the selection one row up, from the first row to the last.
    pub fn move_selection_up(&mut self)
        ensures
            moved_up(*old(self), *final(self)),
    {
        let count: usize = self.visible.len();
        if count == 0 {
            return ;
        }
        let prev: usize = match self.selected {
            Some(i) => if i == 0 {
                count - 1
            } else {
                i - 1
            },
            None => 0,
        };
        self.selected = Some(prev);
    }

    /// Begins a search: from normal mode the rows are kept for the way back;
    /// the query starts empty.
    pub fn start_search(&mut self)
        requires
            old(self).wf(),
        ensures
            final(self).wf(),
            search_started(*old(self), *final(self)),
    {
        if self.mode == Mode::Normal {
            self.backup = copy_rows(&self.visible);
        }
        self.mode = Mode::Search;
        self.search_query = String::new();
    }

    /// Ends a search: the rows kept at its beginning come back, and a
    /// selection beyond them moves to the last row, or goes if there is none.
    pub fn exit_search(&mut self)
        requires
            old(self).wf(),
        ensures
            final(self).wf(),
            search_ended(*old(self), *final(self)),
    {
        if self.mode != Mode::Search {
            return ;
        }
        let rows = copy_rows(&self.backup);
        self.visible = rows;
        self.backup = Vec::new();
        self.mode = Mode::Normal;
        self.search_query = String::new();
        if let Some(sel) = self.selected {
            let count: usize = self.visible.len();
            if sel >= count {
                self.selected = if count == 0 {
                    None
                } else {
                    Some(count - 1)
                };
            }
        }
    }

    /// Shows the entries directly in the focused directory whose name matches
    /// the query; with an empty query, the rows are made anew.
    pub fn apply_search_filter(&mut self)
        requires
            old(self).wf(),
        ensures
            final(self).wf(),
            filtered(*old(self), *final(self)),
    {
        if self.search_query.as_str().is_empty() {
            self.rebuild_visible_list();
            return ;
        }
        let at_root = text_equals(self.current_dir.as_str(), self.root_dir.as_str());
        let candidates = direct_children(&self.entries, self.current_dir.as_str());
        let answers = match_names(&self.entries, &candidates, self.search_query.as_str());
        let mut rows: Vec<Row> = Vec::new();
        if !at_root {
            rows.push(Row::Parent);
        }
        let ghost lead = rows@;
        let mut k: usize = 0;
        while k < candidates.len()
            invariant
                k <= candidates@.len(),
                answers@.len() == candidates@.len(),
                all_below(candidates@, self.entries@.len()),
                *self == *old(self),
                forall|j: int|
                    0 <= j < answers@.len() ==> answers@[j] == matches_query(
                        self.entries@[candidates@[j] as int].data.name@,
                        self.search_query@,
                    ),
                rows@ == lead + matched_upto(
                    self.entries@,
                    candidates@,
                    self.search_query@,
                    k as int,
                ),
                rows_in_range(rows@, self.entries@.len()),
            decreases candidates@.len() - k,
        {
            if answers[k] {
                rows.push(Row::Entry(candidates[k]));
            }
            k += 1;
        }
        self.selected = if rows.len() == 0 {
            None
        } else {
            Some(0)
        };
        self.visible = rows;
    }

    /// The entry under the selection, if the selected row stands for one.
    pub fn get_current_entry(&self) -> (entry: Option<&TuiEntry>)
        requires
            self.wf(),
        ensures
            match selected_entry(self.visible@, self.selected) {
                Some(i) => i < self.entries@.len() && entry == Some(&self.entries@[i as int]),
                None => entry is None,
            },
    {
        match self.selected {
            Some(s) => if s < self.visible.len() {
                match self.visible[s] {
                    Row::Entry(i) => Some(&self.entries[i]),
                    Row::Parent => None,
                }
            } else {
                None
            },
            None => None,
        }
    }

    /// Puts the directory at `entry_idx` in focus: the rows then show what
    /// lies directly in it, after the way back.
    pub fn enter_directory(&mut self, entry_idx: usize)
        requires
            old(self).wf(),
            entry_idx < old(self).entries@.len(),
        ensures
            final(self).wf(),
            entered(*old(self), *final(self), entry_idx as int),
    {
        if !self.entries[entry_idx].data.is_directory {
            return ;
        }
        self.current_dir = self.entries[entry_idx].data.path.clone();
        self.current_parent = clone_opt_string(&self.entries[entry_idx].data.parent);
        self.rebuild_visible_list();
    }

    /// Puts the directory above the focused one in focus, unless the whole
    /// tree is in focus already.
    pub fn go_up(&mut self)
        requires
            old(self).wf(),
        ensures
            final(self).wf(),
            went_up(*old(self), *final(self)),
    {
        if text_equals(self.current_dir.as_str(), self.root_dir.as_str()) {
            return ;
        }
        let parent: String = match &self.current_parent {
            Some(p) => p.clone(),
            None => {
                return ;
            },
        };
        let above = find_parent(&self.entries, parent.as_str());
        self.current_dir = parent;
        self.current_parent = above;
        self.rebuild_visible_list();
    }

    /// Opens the selected row: a directory expands or collapses, a file is
    /// handed out to be opened; the way back leads up if `with_parent`.
    fn open_selected(&mut self, with_parent: bool) -> (action: Action)
        requires
            old(self).wf(),
        ensures
            final(self).wf(),
            opened(*old(self), *final(self), action, with_parent),
    {
        let sel: usize = match self.selected {
            Some(s) => s,
            None => {
                return Action::Stay;
            },
        };
        if sel >= self.visible.len() {
            return Action::Stay;
        }
        match self.visible[sel] {
            Row::Entry(i) => if self.entries[i].data.is_directory {
                self.toggle_expansion();
                Action::Stay
            } else {
                Action::OpenFile(self.entries[i].data.path.clone())
            },
            Row::Parent => {
                if with_parent {
                    self.go_up();
                }
                Action::Stay
            },
        }
    }

    /// Takes one key: changes the state as the key asks and says what is to
    /// be done outside it. While a search is edited, keys without the
    /// control key edit the query; all others navigate.
    pub fn handle_key(&mut self, key: Key, ctrl: bool) -> (action: Action)
        requires
            old(self).wf(),
        ensures
            final(self).wf(),
            if old(self).mode == Mode::Search && !ctrl {
                edited(*old(self), key, *final(self), action)
            } else {
                navigated(*old(self), key, ctrl, *final(self), action)
            },
    {
        if self.mode == Mode::Search && !ctrl {
            match key {
                Key::Backspace => {
                    self.search_query = without_last(self.search_query.as_str());
                    self.apply_search_filter();
                    Action::Stay
                },
                Key::Char(c) => {
                    push_char(&mut self.search_query, c);
                    self.apply_search_filter();
                    Action::Stay
                },
                Key::Esc => {
                    self.exit_search();
                    Action::Stay
                },
                Key::Enter => self.open_selected(false),
                _ => Action::Stay,
            }
        } else {
            match key {
                Key::Char(c) => {
                    if c == 'q' {
                        Action::Quit
                    } else if c == 'r' {
                        Action::Refresh
                    } else if c == 's' && ctrl {
                        match self.get_current_entry() {
                            Some(entry) => Action::PrintPath(entry.data.path.clone()),
                            None => Action::Stay,
                        }
                    } else if c == 't' && ctrl {
                        let dir: Option<String> = match self.get_current_entry() {
                            Some(entry) => Some(
                                if entry.data.is_directory {
                                    entry.data.path.clone()
                                } else {
                                    match &entry.data.parent {
                                        Some(p) => p.clone(),
                                        None => self.current_dir.clone(),
                                    }
                                },
                            ),
                            None => None,
                        };
                        match dir {
                            Some(dir) => {
                                self.rebuild_visible_list();
                                Action::OpenTerminal(dir)
                            },
                            None => Action::Stay,
                        }
                    } else if c == '/' {
                        self.start_search();
                        Action::Stay
                    } else {
                        Action::Stay
                    }
                },
                Key::Right | Key::Left | Key::Enter => self.open_selected(true),
                Key::Tab => {
                    let row: Option<Row> = match self.selected {
                        Some(s) => if s < self.visible.len() {
                            Some(self.visible[s])
                        } else {
                            None
                        },
                        None => None,
                    };
                    match row {
                        Some(Row::Parent) => {
                            self.go_up();
                            self.rebuild_visible_list();
                        },
                        Some(Row::Entry(i)) => {
                            self.enter_directory(i);
                            self.rebuild_visible_list();
                        },
                        None => {},
                    }
                    Action::Stay
                },
                Key::Up => {
                    self.move_selection_up();
                    Action::Stay
                },
                Key::Down => {
                    self.move_selection_down();
                    Action::Stay
                },
                _ => Action::Stay,
            }
        }
    }

    /// Replaces the entries by those of a new scan, keeping what the user
    /// had expanded and selected.
    pub fn refresh_entries(&mut self, new_entries: Vec<TreeEntry>)
        requires
            old(self).wf(),
        ensures
            final(self).wf(),
            refreshed(*old(self), new_entries@, *final(self)),
    {
        let recorded: Option<String> = match self.get_current_entry() {
            Some(entry) => Some(entry.data.path.clone()),
            None => None,
        };
        let expanded = expanded_paths(&self.entries);
        self.entries = wrap_entries(new_entries, &expanded, Ghost(old(self).entries@));
        self.backup = Vec::new();
        self.rebuild_visible_list();
        if self.mode == Mode::Search {
            self.backup = copy_rows(&self.visible);
            if !self.search_query.as_str().is_empty() {
                self.apply_search_filter();
            }
        }
        if let Some(path) = recorded {
            if let Some(k) = find_row(&self.visible, &self.entries, path.as_str()) {
                self.selected = Some(k);
            }
        }
    }
}

/// `String::push` of std: the character is appended.
#[verifier::external_body]
fn push_char(text: &mut String, c: char)
    ensures
        final(text)@ == old(text)@.push(c),
{
    text.push(c);
}

/// The string without its last character; an empty string stays empty.
fn without_last(text: &str) -> (shorter: String)
    ensures
        shorter@ == if text@.len() > 0 {
            text@.drop_last()
        } else {
            text@
        },
{
    let count: usize = text.unicode_len();
    if count == 0 {
        String::from_str(text)
    } else {
        let kept = text.substring_char(0, count - 1);
        String::from_str(kept)
    }
}

/// The positions of the entries that lie directly in the directory `focus`.
fn direct_children(entries: &Vec<TuiEntry>, focus: &str) -> (found: Vec<usize>)
    ensures
        found@ == candidates_upto(entries@, focus@, entries@.len() as int),
        all_below(found@, entries@.len()),
{
    let mut found: Vec<usize> = Vec::new();
    let mut i: usize = 0;
    while i < entries.len()
        invariant
            i <= entries@.len(),
            found@ == candidates_upto(entries@, focus@, i as int),
            all_below(found@, entries@.len()),
        decreases entries@.len() - i,
    {
        let here = match &entries[i].data.parent {
            Some(p) => text_equals(p.as_str(), focus),
            None => false,
        };
        if here {
            found.push(i);
        }
        i += 1;
    }
    found
}

/// One answer per candidate: whether its name matches the query.
fn match_names(entries: &Vec<TuiEntry>, candidates: &Vec<usize>, query: &str) -> (answers: Vec<bool>)
    requires
        all_below(candidates@, entries@.len()),
    ensures
        answers@.len() == candidates@.len(),
        forall|j: int|
            0 <= j < answers@.len() ==> answers@[j] == matches_query(
                entries@[candidates@[j] as int].data.name@,
                query@,
            ),
{
    let chars = chars_of(query);
    let count: usize = chars.len();
    if count >= 2 && chars[0] == 'r' && chars[1] == ':' {
        let pattern = query.substring_char(2, count);
        let matcher = compile_regex(pattern);
        let mut answers: Vec<bool> = Vec::new();
        let mut k: usize = 0;
        while k < candidates.len()
            invariant
                k <= candidates@.len(),
                all_below(candidates@, entries@.len()),
                is_regex_query(query@),
                pattern@ == query@.skip(2),
                matcher is Some <==> regex_compiles(pattern@),
                matcher matches Some(m) ==> m.pattern() == pattern@,
                answers@.len() == k,
                forall|j: int|
                    0 <= j < k ==> answers@[j] == matches_query(
                        entries@[candidates@[j] as int].data.name@,
                        query@,
                    ),
            decreases candidates@.len() - k,
        {
            let found = match &matcher {
                Some(m) => regex_is_match(m, entries[candidates[k]].data.name.as_str()),
                None => false,
            };
            answers.push(found);
            k += 1;
        }
        answers
    } else {
        let needle = to_lowercase(query);
        let mut answers: Vec<bool> = Vec::new();
        let mut k: usize = 0;
        while k < candidates.len()
            invariant
                k <= candidates@.len(),
                all_below(candidates@, entries@.len()),
                !is_regex_query(query@),
                needle@ == lowercase(query@),
                answers@.len() == k,
                forall|j: int|
                    0 <= j < k ==> answers@[j] == matches_query(
                        entries@[candidates@[j] as int].data.name@,
                        query@,
                    ),
            decreases candidates@.len() - k,
        {
            let name = to_lowercase(entries[candidates[k]].data.name.as_str());
            answers.push(contains_text(name.as_str(), needle.as_str()));
            k += 1;
        }
        answers
    }
}

/// The parent path of the first entry that has the path `path`.
fn find_parent(entries: &Vec<TuiEntry>, path: &str) -> (parent: Option<String>)
    ensures
        opt_view(parent) == parent_of_path(entries@, path@, entries@.len() as int),
{
    let mut i: usize = 0;
    while i < entries.len()
        invariant
            i <= entries@.len(),
            !exists_with_path(entries@, path@, i as int),
            parent_of_path(entries@, path@, i as int) is None,
        decreases entries@.len() - i,
    {
        if text_equals(entries[i].data.path.as_str(), path) {
            let found = clone_opt_string(&entries[i].data.parent);
            proof {
                lemma_parent_of_path_stays(entries@, path@, i + 1, entries@.len() as int);
            }
            return found;
        }
        i += 1;
    }
    None
}

proof fn lemma_parent_of_path_stays(entries: Seq<TuiEntry>, path: Seq<char>, at: int, upto: int)
    requires
        0 < at <= upto,
        exists_with_path(entries, path, at),
    ensures
        exists_with_path(entries, path, upto),
        parent_of_path(entries, path, upto) == parent_of_path(entries, path, at),
    decreases upto - at,
{
    if at < upto {
        lemma_parent_of_path_stays(entries, path, at, upto - 1);
    }
}

/// The paths of the expanded directories.
fn expanded_paths(entries: &Vec<TuiEntry>) -> (paths: StringHashMap<bool>)
    ensures
        forall|p: Seq<char>| #[trigger]
            paths@.contains_key(p) <==> was_expanded(entries@, p, entries@.len() as int),
{
    let mut paths: StringHashMap<bool> = StringHashMap::new();
    let mut i: usize = 0;
    while i < entries.len()
        invariant
            i <= entries@.len(),
            forall|p: Seq<char>| #[trigger]
                paths@.contains_key(p) <==> was_expanded(entries@, p, i as int),
        decreases entries@.len() - i,
    {
        if entries[i].expanded && entries[i].data.is_directory {
            paths.insert(entries[i].data.path.clone(), true);
        }
        i += 1;
    }
    paths
}

/// Wraps fresh entries, expanding each directory whose path is among `expanded`.
fn wrap_entries(
    entries: Vec<TreeEntry>,
    expanded: &StringHashMap<bool>,
    Ghost(before): Ghost<Seq<TuiEntry>>,
) -> (wrapped: Vec<TuiEntry>)
    requires
        forall|p: Seq<char>| #[trigger]
            expanded@.contains_key(p) <==> was_expanded(before, p, before.len() as int),
    ensures
        carried_over(before, entries@, wrapped@),
{
    let mut entries = entries;
    let ghost given = entries@;
    // Entries are moved over from the back, then put in order again.
    let mut reversed: Vec<TreeEntry> = Vec::new();
    while entries.len() > 0
        invariant
            reversed@.len() + entries@.len() == given.len(),
            entries@ == given.take(entries@.len() as int),
            forall|j: int| 0 <= j < reversed@.len() ==> reversed@[j] == given[given.len() - 1 - j],
        decreases entries@.len(),
    {
        let last = entries.pop().unwrap();
        reversed.push(last);
    }
    let mut wrapped: Vec<TuiEntry> = Vec::new();
    while reversed.len() > 0
        invariant
            wrapped@.len() + reversed@.len() == given.len(),
            forall|j: int| 0 <= j < reversed@.len() ==> reversed@[j] == given[given.len() - 1 - j],
            forall|p: Seq<char>| #[trigger]
                expanded@.contains_key(p) <==> was_expanded(before, p, before.len() as int),
            forall|j: int|
                0 <= j < wrapped@.len() ==> (#[trigger] wrapped@[j]).data == given[j]
                    && wrapped@[j].expanded == (given[j].is_directory && was_expanded(
                    before,
                    given[j].path@,
                    before.len() as int,
                )),
        decreases reversed@.len(),
    {
        let next = reversed.pop().unwrap();
        let flag = next.is_directory && expanded.contains_key(next.path.as_str());
        wrapped.push(TuiEntry { data: next, expanded: flag });
    }
    wrapped
}

} // verus!
