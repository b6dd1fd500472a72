//! The tree that is printed or navigated: which records are listed, and what
//! is shown of each.

use crate::aggregate::{aggregate, aggregated, info_of, mirrors, totals_at, AggregatedInfo};
use crate::config::{sort_options_of, Args, TimeFilter, TimeMode};
use crate::hierarchy::{hierarchical_result, pick_copies};
use crate::order::identity;
use crate::prune::{entry_views, pick_entries, surviving_positions, survivors};
use crate::record::{extension, extension_of};
use crate::sort::{flat_order, sort_entries, sort_entries_hierarchically};
use crate::text::{lowercase, to_lowercase};
use crate::dir::{get_permission, permission_line};
use crate::icons::{get_icon_for_path, icon_text};
use crate::order::all_below;
use crate::permute::picked;
use crate::plugins::{applied, apply_filter, FilterRegistry};
use crate::record::{clone_opt_string, opt_view, RawRecord};
use crate::text::text_equals;
use vstd::hash_map::StringHashMap;
use vstd::prelude::*;
use vstd::string::*;

verus! {

/// What is shown of one listed record.
#[derive(Debug)]
pub struct TreeEntry {
    pub path: String,
    /// Path of the containing directory, if the path has one.
    pub parent: Option<String>,
    /// Final component of the path.
    pub name: String,
    pub depth: usize,
    pub connector: String,
    pub size: Option<u64>,
    pub dirs: Option<u64>,
    pub files: Option<u64>,
    pub permissions: Option<String>,
    pub icon: Option<String>,
    pub is_directory: bool,
}

/// A tree entry with its strings as character sequences.
pub struct EntryView {
    pub path: Seq<char>,
    pub parent: Option<Seq<char>>,
    pub name: Seq<char>,
    pub depth: usize,
    pub connector: Seq<char>,
    pub size: Option<u64>,
    pub dirs: Option<u64>,
    pub files: Option<u64>,
    pub permissions: Option<Seq<char>>,
    pub icon: Option<Seq<char>>,
    pub is_directory: bool,
}

impl View for TreeEntry {
    type V = EntryView;

    open spec fn view(&self) -> EntryView {
        EntryView {
            path: self.path@,
            parent: opt_view(self.parent),
            name: self.name@,
            depth: self.depth,
            connector: self.connector@,
            size: self.size,
            dirs: self.dirs,
            files: self.files,
            permissions: opt_view(self.permissions),
            icon: opt_view(self.icon),
            is_directory: self.is_directory,
        }
    }
}

/// The connector of the last entry among its siblings.
pub open spec fn last_connector() -> Seq<char> {
    "└──"@
}

/// The connector of an entry that has a sibling after it.
pub open spec fn middle_connector() -> Seq<char> {
    "├──"@
}

impl Default for TreeEntry {
    fn default() -> (entry: Self)
        ensures
            entry@ == (EntryView {
                path: Seq::empty(),
                parent: None,
                name: Seq::empty(),
                depth: 0,
                connector: last_connector(),
                size: None,
                dirs: None,
                files: None,
                permissions: None,
                icon: None,
                is_directory: false,
            }),
    {
        TreeEntry {
            path: String::new(),
            parent: None,
            name: String::new(),
            depth: 0,
            connector: String::from_str("└──"),
            size: None,
            dirs: None,
            files: None,
            permissions: None,
            icon: None,
            is_directory: false,
        }
    }
}

impl TreeEntry {
    /// A copy of the entry, equal to it in every field.
    pub fn duplicate(&self) -> (copy: TreeEntry)
        ensures
            copy == *self,
    {
        TreeEntry {
            path: self.path.clone(),
            parent: clone_opt_string(&self.parent),
            name: self.name.clone(),
            depth: self.depth,
            connector: self.connector.clone(),
            size: self.size,
            dirs: self.dirs,
            files: self.files,
            permissions: clone_opt_string(&self.permissions),
            icon: clone_opt_string(&self.icon),
            is_directory: self.is_directory,
        }
    }
}

/// The path under which a file counts towards the per-directory limit: that
/// of its directory, or its own where it has none.
pub open spec fn cap_key(record: RawRecord) -> Seq<char> {
    match record.parent {
        Some(p) => p@,
        None => record.path@,
    }
}

/// Number of files among the first `upto` records that count under `key`.
pub open spec fn earlier_files(records: Seq<RawRecord>, key: Seq<char>, upto: int) -> nat
    decreases upto,
{
    if upto <= 0 {
        0
    } else {
        earlier_files(records, key, upto - 1) + if !records[upto - 1].is_dir && cap_key(
            records[upto - 1],
        ) == key {
            1nat
        } else {
            0nat
        }
    }
}

/// Whether the record at `i` is listed: a directory unless only files are
/// wanted; a file unless only directories are wanted or its directory has
/// already had as many files as the limit allows.
pub open spec fn is_kept(records: Seq<RawRecord>, args: Args, i: int) -> bool {
    let record = records[i];
    if record.is_dir {
        !args.files_only
    } else {
        !args.dirs_only && match args.files {
            Some(max) => earlier_files(records, cap_key(record), i) < max,
            None => true,
        }
    }
}

/// Positions, ascending, of the listed records among the first `upto`.
pub open spec fn kept_upto(records: Seq<RawRecord>, args: Args, upto: int) -> Seq<usize>
    decreases upto,
{
    if upto <= 0 {
        Seq::empty()
    } else {
        let before = kept_upto(records, args, upto - 1);
        if is_kept(records, args, upto - 1) {
            before.push((upto - 1) as usize)
        } else {
            before
        }
    }
}

/// Positions, ascending, of the listed records.
pub open spec fn kept_positions(records: Seq<RawRecord>, args: Args) -> Seq<usize> {
    kept_upto(records, args, records.len() as int)
}

/// The listed records are records of the list.
pub proof fn lemma_kept_below(records: Seq<RawRecord>, args: Args, upto: int)
    requires
        upto <= records.len() <= usize::MAX,
    ensures
        all_below(kept_upto(records, args, upto), records.len()),
    decreases upto,
{
    if upto > 0 {
        lemma_kept_below(records, args, upto - 1);
    }
}

/// The number that a counter holds for `key`: 0 where it holds none.
pub open spec fn count_at(counts: Map<Seq<char>, usize>, key: Seq<char>) -> nat {
    if counts.contains_key(key) {
        counts[key] as nat
    } else {
        0
    }
}

/// Chooses the records to list, in scan order.
pub fn select_entries(entries: &Vec<RawRecord>, args: &Args) -> (kept: Vec<usize>)
    ensures
        kept@ == kept_positions(entries@, *args),
        all_below(kept@, entries@.len()),
{
    let n: usize = entries.len();
    let mut kept: Vec<usize> = Vec::new();
    let mut counts: StringHashMap<usize> = StringHashMap::new();
    let mut i: usize = 0;
    while i < n
        invariant
            i <= n,
            n == entries@.len(),
            kept@ == kept_upto(entries@, *args, i as int),
            forall|key: Seq<char>|
                args.files matches Some(max) ==> (#[trigger] count_at(counts@, key)) == if earlier_files(
                    entries@,
                    key,
                    i as int,
                ) < max {
                    earlier_files(entries@, key, i as int)
                } else {
                    max as nat
                },
        decreases n - i,
    {
        let entry = &entries[i];
        let ghost old_counts = counts@;
        let mut keep: bool = true;
        if entry.is_dir {
            keep = !args.files_only;
        } else if args.dirs_only {
            keep = false;
        }
        if !entry.is_dir {
            if let Some(max) = args.files {
                let key: &String = match &entry.parent {
                    Some(p) => p,
                    None => &entry.path,
                };
                let count: usize = match counts.get(key.as_str()) {
                    Some(c) => *c,
                    None => 0,
                };
                assert(count == count_at(old_counts, key@));
                if count >= max {
                    keep = false;
                } else {
                    counts.insert(key.clone(), count + 1);
                }
                assert forall|other: Seq<char>|
                    (#[trigger] count_at(counts@, other)) == if earlier_files(
                        entries@,
                        other,
                        i + 1,
                    ) < max {
                        earlier_files(entries@, other, i + 1)
                    } else {
                        max as nat
                    } by {
                    assert(count_at(old_counts, other) == if earlier_files(
                        entries@,
                        other,
                        i as int,
                    ) < max {
                        earlier_files(entries@, other, i as int)
                    } else {
                        max as nat
                    });
                }
            }
        }
        if keep {
            kept.push(i);
        }
        i += 1;
    }
    proof {
        lemma_kept_below(entries@, *args, n as int);
    }
    kept
}

/// The depth at which a record is shown: 1 for every record of a flat
/// listing of files, else its depth in the scan.
pub open spec fn display_depth(record: RawRecord, args: Args) -> usize {
    if args.files_only {
        1
    } else {
        record.depth
    }
}

/// Whether a later listed record has the depth and the parent of `record`.
pub open spec fn has_later_sibling(
    records: Seq<RawRecord>,
    args: Args,
    kept: Seq<usize>,
    k: int,
    upto: int,
) -> bool {
    exists|m: int|
        k < m < upto && display_depth(records[kept[m] as int], args) == display_depth(
            records[kept[k] as int],
            args,
        ) && opt_view(records[(#[trigger] kept[m]) as int].parent) == opt_view(
            records[kept[k] as int].parent,
        )
}

/// What the tree shows of the `k`-th listed record.
pub open spec fn expected_entry(
    records: Seq<RawRecord>,
    args: Args,
    root: Seq<char>,
    kept: Seq<usize>,
    k: int,
) -> EntryView {
    let record = records[kept[k] as int];
    let totals = totals_at(aggregated(records, root), record.path@);
    EntryView {
        path: record.path@,
        parent: opt_view(record.parent),
        name: record.file_name@,
        depth: display_depth(record, args),
        connector: if has_later_sibling(records, args, kept, k, kept.len() as int) {
            middle_connector()
        } else {
            last_connector()
        },
        size: Some(info_of(totals).size),
        dirs: Some(info_of(totals).dirs),
        files: Some(info_of(totals).files),
        permissions: if args.permissions {
            Some(permission_line(record.metadata))
        } else {
            None
        },
        icon: if args.icons {
            Some(icon_text(record.file_name@, record.is_dir).push(' '))
        } else {
            None
        },
        is_directory: record.is_dir,
    }
}

fn same_opt_text(a: &Option<String>, b: &Option<String>) -> (same: bool)
    ensures
        same == (opt_view(*a) == opt_view(*b)),
{
    match (a, b) {
        (Some(x), Some(y)) => text_equals(x.as_str(), y.as_str()),
        (None, None) => true,
        _ => false,
    }
}

fn shown_depth(record: &RawRecord, args: &Args) -> (depth: usize)
    ensures
        depth == display_depth(*record, *args),
{
    if args.files_only {
        1
    } else {
        record.depth
    }
}

/// Tells whether the `k`-th listed record is the last among its siblings.
fn is_last_sibling(entries: &Vec<RawRecord>, args: &Args, kept: &Vec<usize>, k: usize) -> (last: bool)
    requires
        k < kept@.len(),
        all_below(kept@, entries@.len()),
    ensures
        last == !has_later_sibling(entries@, *args, kept@, k as int, kept@.len() as int),
{
    let record = &entries[kept[k]];
    let depth = shown_depth(record, args);
    let count: usize = kept.len();
    let mut m: usize = k + 1;
    while m < kept.len()
        invariant
            k < m <= kept@.len(),
            all_below(kept@, entries@.len()),
            record == entries@[kept@[k as int] as int],
            depth == display_depth(*record, *args),
            !has_later_sibling(entries@, *args, kept@, k as int, m as int),
        decreases kept@.len() - m,
    {
        let other = &entries[kept[m]];
        if shown_depth(other, args) == depth && same_opt_text(&other.parent, &record.parent) {
            return false;
        }
        m += 1;
    }
    true
}

/// Builds what the tree shows of the `k`-th listed record.
fn make_entry(
    entries: &Vec<RawRecord>,
    args: &Args,
    kept: &Vec<usize>,
    recorded: &StringHashMap<AggregatedInfo>,
    k: usize,
    Ghost(root): Ghost<Seq<char>>,
) -> (entry: TreeEntry)
    requires
        k < kept@.len(),
        all_below(kept@, entries@.len()),
        mirrors(recorded@, aggregated(entries@, root)),
    ensures
        entry@ == expected_entry(entries@, *args, root, kept@, k as int),
{
    let record = &entries[kept[k]];
    let last = is_last_sibling(entries, args, kept, k);
    let connector = if last {
        "└──"
    } else {
        "├──"
    };
    let permissions = if args.permissions {
        Some(get_permission(record.metadata))
    } else {
        None
    };
    let icon = if args.icons {
        let mut text = get_icon_for_path(record.file_name.as_str(), record.is_dir);
        proof {
            reveal_strlit(" ");
        }
        text.append(" ");
        assert(text@ =~= icon_text(record.file_name@, record.is_dir).push(' '));
        Some(text)
    } else {
        None
    };
    let info = match recorded.get(record.path.as_str()) {
        Some(info) => *info,
        None => AggregatedInfo { size: 0, dirs: 0, files: 0 },
    };
    TreeEntry {
        path: record.path.clone(),
        parent: clone_opt_string(&record.parent),
        name: record.file_name.clone(),
        depth: shown_depth(record, args),
        connector: String::from_str(connector),
        size: Some(info.size),
        dirs: Some(info.dirs),
        files: Some(info.files),
        permissions,
        icon,
        is_directory: record.is_dir,
    }
}

/// What is shown of each kept record, before any pruning.
pub open spec fn laid_out(records: Seq<RawRecord>, args: Args, root: Seq<char>) -> Seq<EntryView> {
    Seq::new(
        kept_positions(records, args).len(),
        |k: int| expected_entry(records, args, root, kept_positions(records, args), k),
    )
}

/// Whether files were filtered out by extension or by time.
pub open spec fn filters_active(args: Args) -> bool {
    args.time_filter is Some || args.exclude_extensions@.len() > 0
}

/// Positions, among the kept records, of those that the tree lists: all of
/// them, or with active filters those that survive the pruning of
/// directories without files.
pub open spec fn shown_positions(records: Seq<RawRecord>, args: Args, root: Seq<char>) -> Seq<usize> {
    if filters_active(args) {
        survivors(laid_out(records, args, root))
    } else {
        identity(laid_out(records, args, root).len())
    }
}

/// Whether the extension of `name` is among the excluded ones, compared
/// without regard to case.
pub open spec fn extension_excluded(name: Seq<char>, excluded: Seq<String>, upto: int) -> bool {
    match extension(name) {
        Some(e) => exists|j: int|
            0 <= j < upto && lowercase((#[trigger] excluded[j])@) == lowercase(e),
        None => false,
    }
}

/// Whether a modification time lies in the window, if there is one: strictly
/// after, or strictly before, the instant. An unknown time lies in no window.
pub open spec fn in_time_window(modified: Option<i128>, filter: Option<TimeFilter>) -> bool {
    match filter {
        None => true,
        Some(window) => match modified {
            Some(t) => match window.mode {
                TimeMode::After => t > window.instant,
                TimeMode::Before => t < window.instant,
            },
            None => false,
        },
    }
}

/// When a record was last modified, if that is known.
pub open spec fn modified_of(record: RawRecord) -> Option<i128> {
    match record.metadata {
        Some(m) => m.modified,
        None => None,
    }
}

/// Whether the filter stage lets a record through: a directory always, a file
/// unless its extension is excluded or its modification time is outside the window.
pub open spec fn passes_filters(record: RawRecord, args: Args) -> bool {
    record.is_dir || (!extension_excluded(
        record.file_name@,
        args.exclude_extensions@,
        args.exclude_extensions@.len() as int,
    ) && in_time_window(modified_of(record), args.time_filter))
}

/// Positions, ascending, of the records among the first `upto` that the
/// filter stage lets through.
pub open spec fn passing_upto(records: Seq<RawRecord>, args: Args, upto: int) -> Seq<usize>
    decreases upto,
{
    if upto <= 0 {
        Seq::empty()
    } else {
        let before = passing_upto(records, args, upto - 1);
        if passes_filters(records[upto - 1], args) {
            before.push((upto - 1) as usize)
        } else {
            before
        }
    }
}

/// The records that the filter stage lets through, in scan order.
pub open spec fn filtered(records: Seq<RawRecord>, args: Args) -> Seq<RawRecord> {
    picked(records, passing_upto(records, args, records.len() as int))
}

/// The positions that a tree lists are positions of kept records.
pub proof fn lemma_shown_in_range(records: Seq<RawRecord>, args: Args, root: Seq<char>)
    requires
        records.len() <= usize::MAX,
    ensures
        all_below(shown_positions(records, args, root), laid_out(records, args, root).len()),
        laid_out(records, args, root).len() == kept_positions(records, args).len(),
{
    let laid = laid_out(records, args, root);
    lemma_kept_length(records, args, records.len() as int);
    if filters_active(args) {
        crate::prune::lemma_survivors_below(laid, laid.len() as int);
    }
}

/// No more records are kept than there are.
pub proof fn lemma_kept_length(records: Seq<RawRecord>, args: Args, upto: int)
    requires
        0 <= upto,
    ensures
        kept_upto(records, args, upto).len() <= upto,
    decreases upto,
{
    if upto > 0 {
        lemma_kept_length(records, args, upto - 1);
    }
}

proof fn lemma_passing_below(records: Seq<RawRecord>, args: Args, upto: int)
    requires
        upto <= records.len() <= usize::MAX,
    ensures
        all_below(passing_upto(records, args, upto), records.len()),
    decreases upto,
{
    if upto > 0 {
        lemma_passing_below(records, args, upto - 1);
    }
}

fn is_excluded(name: &str, excluded: &Vec<String>) -> (out: bool)
    ensures
        out == extension_excluded(name@, excluded@, excluded@.len() as int),
{
    match extension_of(name) {
        Some(e) => {
            let lower = to_lowercase(e.as_str());
            let mut j: usize = 0;
            while j < excluded.len()
                invariant
                    j <= excluded@.len(),
                    extension(name@) == Some(e@),
                    lower@ == lowercase(e@),
                    !extension_excluded(name@, excluded@, j as int),
                decreases excluded@.len() - j,
            {
                let candidate = to_lowercase(excluded[j].as_str());
                if text_equals(candidate.as_str(), lower.as_str()) {
                    return true;
                }
                j += 1;
            }
            false
        },
        None => false,
    }
}

fn passes(record: &RawRecord, args: &Args) -> (ok: bool)
    ensures
        ok == passes_filters(*record, *args),
{
    if record.is_dir {
        return true;
    }
    if is_excluded(record.file_name.as_str(), &args.exclude_extensions) {
        return false;
    }
    match args.time_filter {
        None => true,
        Some(window) => {
            let modified = match record.metadata {
                Some(m) => m.modified,
                None => None,
            };
            match modified {
                Some(t) => match window.mode {
                    TimeMode::After => t > window.instant,
                    TimeMode::Before => t < window.instant,
                },
                None => false,
            }
        },
    }
}

/// The filter stage: drops the files that the exclusion policies rule out.
pub fn filter_records(records: &Vec<RawRecord>, args: &Args) -> (passed: Vec<RawRecord>)
    ensures
        passed@ == filtered(records@, *args),
{
    let n: usize = records.len();
    let mut positions: Vec<usize> = Vec::new();
    let mut i: usize = 0;
    while i < n
        invariant
            i <= n,
            n == records@.len(),
            positions@ == passing_upto(records@, *args, i as int),
        decreases n - i,
    {
        if passes(&records[i], args) {
            positions.push(i);
        }
        i += 1;
    }
    proof {
        lemma_passing_below(records@, *args, n as int);
    }
    pick_copies(records, &positions)
}

/// The records as the tree is built from them: filtered, then sorted flat
/// for a listing of files only, else hierarchically.
pub open spec fn prepared(records: Seq<RawRecord>, args: Args) -> Seq<RawRecord> {
    let passed = filtered(records, args);
    if args.files_only {
        picked(passed, flat_order(passed, sort_options_of(args)))
    } else {
        hierarchical_result(passed, sort_options_of(args))
    }
}

/// Positions, ascending, of the entries of depth `depth` among the first `upto`.
pub open spec fn positions_at_depth(tree_info: Seq<TreeEntry>, depth: usize, upto: int) -> Seq<usize>
    decreases upto,
{
    if upto <= 0 {
        Seq::empty()
    } else {
        let before = positions_at_depth(tree_info, depth, upto - 1);
        if tree_info[upto - 1].depth == depth {
            before.push((upto - 1) as usize)
        } else {
            before
        }
    }
}

/// The positions of a depth are positions of entries that have that depth.
pub proof fn lemma_positions_below(tree_info: Seq<TreeEntry>, depth: usize, upto: int)
    requires
        upto <= tree_info.len() <= usize::MAX,
    ensures
        all_below(positions_at_depth(tree_info, depth, upto), tree_info.len()),
        forall|k: int|
            0 <= k < positions_at_depth(tree_info, depth, upto).len() ==> tree_info[(
            #[trigger] positions_at_depth(tree_info, depth, upto)[k]) as int].depth == depth
                && positions_at_depth(tree_info, depth, upto)[k] < upto,
    decreases upto,
{
    if upto > 0 {
        lemma_positions_below(tree_info, depth, upto - 1);
    }
}

/// The positions of the entries of one depth.
#[derive(Debug)]
pub struct DepthGroup {
    pub depth: usize,
    pub positions: Vec<usize>,
}

/// The groups hold, for each depth that occurs among the first `upto`
/// entries, the positions of the entries of that depth, and no depth twice.
pub open spec fn index_holds(groups: Seq<DepthGroup>, tree_info: Seq<TreeEntry>, upto: int) -> bool {
    &&& forall|g: int|
        0 <= g < groups.len() ==> (#[trigger] groups[g]).positions@ == positions_at_depth(
            tree_info,
            groups[g].depth,
            upto,
        )
    &&& forall|g: int, h: int|
        0 <= g < groups.len() && 0 <= h < groups.len() && g != h ==> (#[trigger] groups[g]).depth
            != (#[trigger] groups[h]).depth
    &&& forall|i: int| 0 <= i < upto ==> has_group(groups, (#[trigger] tree_info[i]).depth)
}

/// Whether a group is kept for `depth`.
pub open spec fn has_group(groups: Seq<DepthGroup>, depth: usize) -> bool {
    exists|g: int| 0 <= g < groups.len() && (#[trigger] groups[g]).depth == depth
}

fn find_group(groups: &Vec<DepthGroup>, depth: usize) -> (found: Option<usize>)
    ensures
        match found {
            Some(g) => g < groups@.len() && groups@[g as int].depth == depth,
            None => forall|g: int| 0 <= g < groups@.len() ==> (#[trigger] groups@[g]).depth != depth,
        },
{
    let mut g: usize = 0;
    while g < groups.len()
        invariant
            g <= groups@.len(),
            forall|h: int| 0 <= h < g ==> (#[trigger] groups@[h]).depth != depth,
        decreases groups@.len() - g,
    {
        if groups[g].depth == depth {
            return Some(g);
        }
        g += 1;
    }
    None
}

/// Groups the positions of the entries by depth.
fn index_depths(tree_info: &Vec<TreeEntry>) -> (groups: Vec<DepthGroup>)
    ensures
        index_holds(groups@, tree_info@, tree_info@.len() as int),
{
    let mut groups: Vec<DepthGroup> = Vec::new();
    let mut i: usize = 0;
    while i < tree_info.len()
        invariant
            i <= tree_info@.len(),
            index_holds(groups@, tree_info@, i as int),
        decreases tree_info@.len() - i,
    {
        let depth = tree_info[i].depth;
        let ghost before = groups@;
        let found = find_group(&groups, depth);
        match found {
            Some(g) => {
                groups[g].positions.push(i);
            },
            None => {
                let mut positions: Vec<usize> = Vec::new();
                positions.push(i);
                assert(positions_at_depth(tree_info@, depth, i as int) =~= Seq::<usize>::empty())
                    by {
                    lemma_positions_below(tree_info@, depth, i as int);
                    if positions_at_depth(tree_info@, depth, i as int).len() > 0 {
                        // An earlier entry of this depth would have a group.
                        let at = positions_at_depth(tree_info@, depth, i as int)[0] as int;
                        assert(has_group(groups@, tree_info@[at].depth));
                    }
                }
                groups.push(DepthGroup { depth, positions });
            },
        }
        proof {
            assert(has_group(groups@, depth)) by {
                let g = if found is Some {
                    found->0 as int
                } else {
                    before.len() as int
                };
                assert(groups@[g].depth == depth);
            }
            assert forall|j: int| 0 <= j < i + 1 implies has_group(
                groups@,
                (#[trigger] tree_info@[j]).depth,
            ) by {
                if j < i {
                    let g = choose|g: int|
                        0 <= g < before.len() && (#[trigger] before[g]).depth
                            == tree_info@[j].depth;
                    assert(groups@[g].depth == tree_info@[j].depth);
                }
            }
        }
        i += 1;
    }
    groups
}

/// The listed records with what is shown of each, and the totals of the root.
#[derive(Debug)]
pub struct Tree {
    pub entries: Vec<RawRecord>,
    pub tree_info: Vec<TreeEntry>,
    /// Totals of everything below the scan root.
    pub root_info: AggregatedInfo,
    /// Derived from `tree_info`: the positions of the entries of each depth.
    pub depth_index: Vec<DepthGroup>,
}

impl Tree {
    /// The two lists run in step, each entry beside the record with its
    /// path, and the depth index is that of the entries.
    pub open spec fn wf(self) -> bool {
        &&& self.entries@.len() == self.tree_info@.len()
        &&& forall|i: int|
            0 <= i < self.tree_info@.len() ==> (#[trigger] self.tree_info@[i]).path@
                == self.entries@[i].path@
        &&& index_holds(self.depth_index@, self.tree_info@, self.tree_info@.len() as int)
    }

    /// The tree is what `records` give under `args`: it lists the records
    /// at `shown_positions` among the kept ones, shows of each what
    /// `laid_out` says, and holds the totals of the root.
    pub open spec fn shows(self, records: Seq<RawRecord>, args: Args, root: Seq<char>) -> bool {
        &&& self.wf()
        &&& self.entries@ == picked(
            picked(records, kept_positions(records, args)),
            shown_positions(records, args, root),
        )
        &&& entry_views(self.tree_info@) == picked(
            laid_out(records, args, root),
            shown_positions(records, args, root),
        )
        &&& self.root_info == info_of(totals_at(aggregated(records, root), root))
    }

    /// Builds the tree from sorted records: totals for every path, then the
    /// records that are listed, each with its depth, connector and columns;
    /// where files were filtered out by extension or time, the directories
    /// left without any listed file below them are dropped.
    pub fn build(entries: Vec<RawRecord>, args: &Args, root: &str) -> (tree: Tree)
        ensures
            tree.shows(entries@, *args, root@),
    {
        let laid = Tree::lay_out(entries, args, root);
        assert(entry_views(laid.tree_info@) =~= laid_out(entries@, *args, root@));
        if args.time_filter.is_some() || args.exclude_extensions.len() > 0 {
            let stay = surviving_positions(&laid.tree_info);
            let tree_info = pick_entries(&laid.tree_info, &stay);
            let listed = pick_copies(&laid.entries, &stay);
            let depth_index = index_depths(&tree_info);
            assert(entry_views(tree_info@) =~= picked(entry_views(laid.tree_info@), stay@));
            Tree { entries: listed, tree_info, root_info: laid.root_info, depth_index }
        } else {
            let count: usize = laid.tree_info.len();
            proof {
                let all = identity(laid.tree_info@.len());
                assert(laid.entries@ =~= picked(laid.entries@, all));
                assert(entry_views(laid.tree_info@) =~= picked(entry_views(laid.tree_info@), all));
            }
            laid
        }
    }

    /// Lists the kept records with what is shown of each.
    pub fn lay_out(entries: Vec<RawRecord>, args: &Args, root: &str) -> (tree: Tree)
        ensures
            tree.wf(),
            tree.entries@ == picked(entries@, kept_positions(entries@, *args)),
            tree.tree_info@.len() == kept_positions(entries@, *args).len(),
            forall|k: int|
                0 <= k < tree.tree_info@.len() ==> (#[trigger] tree.tree_info@[k])@
                    == expected_entry(entries@, *args, root@, kept_positions(entries@, *args), k),
            tree.root_info == info_of(totals_at(aggregated(entries@, root@), root@)),
    {
        let recorded = aggregate(&entries, root);
        let kept = select_entries(&entries, args);
        let mut tree_info: Vec<TreeEntry> = Vec::new();
        let mut listed: Vec<RawRecord> = Vec::new();
        let mut k: usize = 0;
        while k < kept.len()
            invariant
                k <= kept@.len(),
                kept@ == kept_positions(entries@, *args),
                all_below(kept@, entries@.len()),
                mirrors(recorded@, aggregated(entries@, root@)),
                tree_info@.len() == k,
                listed@.len() == k,
                forall|j: int| 0 <= j < k ==> listed@[j] == entries@[kept@[j] as int],
                forall|j: int|
                    0 <= j < k ==> (#[trigger] tree_info@[j])@ == expected_entry(
                        entries@,
                        *args,
                        root@,
                        kept@,
                        j,
                    ),
            decreases kept@.len() - k,
        {
            tree_info.push(make_entry(&entries, args, &kept, &recorded, k, Ghost(root@)));
            listed.push(entries[kept[k]].duplicate());
            k += 1;
        }
        let root_info = match recorded.get(root) {
            Some(info) => *info,
            None => AggregatedInfo { size: 0, dirs: 0, files: 0 },
        };
        let depth_index = index_depths(&tree_info);
        Tree { entries: listed, tree_info, root_info, depth_index }
    }

    /// Prepares the tree from the records of a scan: filters them, sorts
    /// them, builds the tree from the result and passes it through the
    /// stages that are registered under `tree_entries`.
    pub fn prepare<F: Fn(Tree) -> Tree>(
        records: &Vec<RawRecord>,
        args: &Args,
        root: &str,
        stages: &FilterRegistry<F>,
    ) -> (tree: Tree)
        requires
            stages.wf(),
            stages.accepts_all::<Tree>(),
        ensures
            exists|base: Tree| #[trigger]
                base.shows(prepared(records@, *args), *args, root@) && applied(
                    stages.hooks@,
                    stages.filters@,
                    "tree_entries"@,
                    stages.filters@.len() as int,
                    base,
                    tree,
                ),
    {
        let base = Tree::assemble(records, args, root);
        apply_filter(stages, "tree_entries", base)
    }

    /// Filters the records of a scan, sorts them and builds the tree from the result.
    pub fn assemble(records: &Vec<RawRecord>, args: &Args, root: &str) -> (tree: Tree)
        ensures
            tree.shows(prepared(records@, *args), *args, root@),
    {
        let mut entries = filter_records(records, args);
        let options = args.to_sort_options();
        if args.files_only {
            sort_entries(&mut entries, &options);
        } else {
            sort_entries_hierarchically(&mut entries, &options);
        }
        Tree::build(entries, args, root)
    }

    /// All entries of the given depth with their records, in listing order.
    pub fn entries_at_depth(&self, depth: usize) -> (found: Vec<(&RawRecord, &TreeEntry)>)
        requires
            self.wf(),
        ensures
            found@.len() == positions_at_depth(
                self.tree_info@,
                depth,
                self.tree_info@.len() as int,
            ).len(),
            forall|k: int|
                0 <= k < found@.len() ==> {
                    let at = positions_at_depth(
                        self.tree_info@,
                        depth,
                        self.tree_info@.len() as int,
                    )[k] as int;
                    &&& 0 <= at < self.tree_info@.len()
                    &&& *(#[trigger] found@[k]).0 == self.entries@[at]
                    &&& *found@[k].1 == self.tree_info@[at]
                },
    {
        let mut found: Vec<(&RawRecord, &TreeEntry)> = Vec::new();
        let count: usize = self.tree_info.len();
        proof {
            lemma_positions_below(self.tree_info@, depth, count as int);
        }
        match find_group(&self.depth_index, depth) {
            Some(g) => {
                let positions = &self.depth_index[g].positions;
                let mut k: usize = 0;
                while k < positions.len()
                    invariant
                        k <= positions@.len(),
                        self.wf(),
                        count == self.tree_info@.len(),
                        positions@ == positions_at_depth(self.tree_info@, depth, count as int),
                        all_below(positions@, self.tree_info@.len()),
                        found@.len() == k,
                        forall|j: int|
                            0 <= j < k ==> *(#[trigger] found@[j]).0
                                == self.entries@[positions@[j] as int] && *found@[j].1
                                == self.tree_info@[positions@[j] as int],
                    decreases positions@.len() - k,
                {
                    let at = positions[k];
                    found.push((&self.entries[at], &self.tree_info[at]));
                    k += 1;
                }
            },
            None => {
                let ghost all = positions_at_depth(self.tree_info@, depth, count as int);
                assert(all.len() == 0) by {
                    if all.len() > 0 {
                        // An entry of this depth would have a group.
                        let at = all[0] as int;
                        assert(has_group(self.depth_index@, self.tree_info@[at].depth));
                    }
                }
            },
        }
        found
    }
}

} // verus!
