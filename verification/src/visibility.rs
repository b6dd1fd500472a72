//! The law of visibility: in a tree laid out depth first, an entry is on
//! screen exactly when every directory that encloses it is expanded.

use crate::tree::TreeEntry;
use crate::tui::{
    enclosing_flags, flags_above, flipped, is_shown, lemma_row_of_path_in_range,
    lemma_rows_in_range, refreshed, row_of_path, rows_in_range, rows_upto, selected_path,
    shown_in_dir, shown_in_tree, visible_rows, was_expanded, Mode, Row, TuiApp, TuiEntry,
};
use vstd::prelude::*;

verus! {

/// The depths are those of a tree laid out depth first: they begin at 1, an
/// entry is at most one level below the entry before it, and only below a directory.
pub open spec fn well_shaped(entries: Seq<TuiEntry>) -> bool {
    &&& forall|i: int| 0 <= i < entries.len() ==> (#[trigger] entries[i]).data.depth >= 1
    &&& entries.len() > 0 ==> entries[0].data.depth == 1
    &&& forall|i: int|
        0 < i < entries.len() ==> (#[trigger] entries[i]).data.depth <= entries[i - 1].data.depth + 1
            && (entries[i].data.depth == entries[i - 1].data.depth + 1 ==> entries[i
            - 1].data.is_directory)
}

/// Whether the directory at `j` encloses the entry at `i`: it comes before
/// it at a lesser depth, and everything between the two lies deeper than it.
pub open spec fn encloses(entries: Seq<TuiEntry>, j: int, i: int) -> bool {
    &&& 0 <= j < i < entries.len()
    &&& entries[j].data.is_directory
    &&& entries[j].data.depth < entries[i].data.depth
    &&& forall|x: int| j < x < i ==> (#[trigger] entries[x]).data.depth > entries[j].data.depth
}

/// The positions of the directories whose flags are `enclosing_flags`.
pub open spec fn enclosing_owners(entries: Seq<TuiEntry>, upto: int) -> Seq<int>
    decreases upto, 0nat,
{
    if upto <= 0 {
        Seq::empty()
    } else {
        let entry = entries[upto - 1];
        let cut = owners_above(entries, upto - 1);
        if entry.data.is_directory && entry.data.depth > 0 {
            cut.push(upto - 1)
        } else {
            cut
        }
    }
}

/// The positions of the directories whose flags are `flags_above`.
pub open spec fn owners_above(entries: Seq<TuiEntry>, i: int) -> Seq<int>
    decreases i, 1nat,
{
    if i < 0 {
        Seq::empty()
    } else {
        let before = enclosing_owners(entries, i);
        let keep = if entries[i].data.depth == 0 {
            0
        } else {
            entries[i].data.depth - 1
        };
        if before.len() <= keep {
            before
        } else {
            before.take(keep)
        }
    }
}

/// The owners are the enclosing directories, outermost first, one per level.
spec fn stack_holds(entries: Seq<TuiEntry>, owners: Seq<int>, flags: Seq<bool>, upto: int) -> bool {
    &&& owners.len() == flags.len()
    &&& forall|k: int|
        0 <= k < owners.len() ==> 0 <= (#[trigger] owners[k]) < upto
            && entries[owners[k]].data.is_directory && entries[owners[k]].data.depth == k + 1
            && flags[k] == entries[owners[k]].expanded && (forall|x: int|
            owners[k] < x < upto ==> (#[trigger] entries[x]).data.depth > k + 1)
}

proof fn lemma_stack(entries: Seq<TuiEntry>, upto: int)
    requires
        well_shaped(entries),
        0 <= upto <= entries.len(),
    ensures
        stack_holds(
            entries,
            enclosing_owners(entries, upto),
            enclosing_flags(entries, upto),
            upto,
        ),
        upto > 0 ==> enclosing_owners(entries, upto).len() == if entries[upto
            - 1].data.is_directory {
            entries[upto - 1].data.depth as int
        } else {
            entries[upto - 1].data.depth - 1
        },
        upto > 0 ==> stack_holds(
            entries,
            owners_above(entries, upto - 1),
            flags_above(entries, upto - 1),
            upto - 1,
        ) && owners_above(entries, upto - 1).len() == entries[upto - 1].data.depth - 1,
    decreases upto,
{
    if upto > 0 {
        let i = upto - 1;
        lemma_stack(entries, i);
    }
}

/// The visibility invariant while the whole tree is in focus: an entry of a
/// well-shaped tree is on screen if and only if every directory that
/// encloses it is expanded.
pub proof fn lemma_shown_iff_enclosing_expanded(entries: Seq<TuiEntry>, i: int)
    requires
        well_shaped(entries),
        0 <= i < entries.len(),
    ensures
        shown_in_tree(entries, i) <==> (forall|j: int|
            encloses(entries, j, i) ==> (#[trigger] entries[j]).expanded),
{
    lemma_stack(entries, i + 1);
    let owners = owners_above(entries, i);
    let flags = flags_above(entries, i);
    if shown_in_tree(entries, i) {
        assert forall|j: int| encloses(entries, j, i) implies (#[trigger] entries[j]).expanded by {
            // An enclosing directory is the one that the stack holds for its level.
            let k = entries[j].data.depth - 1;
            assert(owners[k] == j);
        }
    }
    if forall|j: int| encloses(entries, j, i) ==> (#[trigger] entries[j]).expanded {
        assert forall|k: int| 0 <= k < flags.len() implies flags[k] by {
            assert(encloses(entries, owners[k], i));
        }
    }
}

/// Toggling one directory changes what is on screen only among the entries
/// that it encloses: every other entry, its siblings among them, is on
/// screen after the toggle exactly if it was before.
pub proof fn lemma_toggle_is_local(entries: Seq<TuiEntry>, at: int, i: int)
    requires
        well_shaped(entries),
        0 <= at < entries.len(),
        0 <= i < entries.len(),
        !encloses(entries, at, i),
    ensures
        shown_in_tree(flipped(entries, at), i) == shown_in_tree(entries, i),
{
    let after = flipped(entries, at);
    lemma_shown_iff_enclosing_expanded(entries, i);
    lemma_shown_iff_enclosing_expanded(after, i);
    assert forall|j: int| encloses(after, j, i) == encloses(entries, j, i) by {
        if encloses(after, j, i) {
            assert forall|x: int| j < x < i implies (#[trigger] entries[x]).data.depth
                > entries[j].data.depth by {
                assert(after[x].data.depth > after[j].data.depth);
            }
        }
    }
}

/// Toggling one directory leaves the rows of all entries that it does not
/// enclose as they are: each has a row afterwards exactly if it had one before.
pub proof fn lemma_toggle_keeps_other_rows(entries: Seq<TuiEntry>, root: Seq<char>, at: int, i: usize)
    requires
        well_shaped(entries),
        0 <= at < entries.len(),
        i < entries.len() <= usize::MAX,
        !encloses(entries, at, i as int),
    ensures
        visible_rows(flipped(entries, at), root, root).contains(Row::Entry(i)) == visible_rows(
            entries,
            root,
            root,
        ).contains(Row::Entry(i)),
{
    lemma_toggle_is_local(entries, at, i as int);
    lemma_rows_hold_shown(entries, root, root, entries.len() as int, i);
    lemma_rows_hold_shown(flipped(entries, at), root, root, entries.len() as int, i);
}

/// The rows hold exactly the entries that are on screen, each once, in
/// listing order, after the way back where a directory is in focus.
pub proof fn lemma_rows_hold_shown(entries: Seq<TuiEntry>, focus: Seq<char>, root: Seq<char>, upto: int, i: usize)
    requires
        0 <= upto <= entries.len() <= usize::MAX,
    ensures
        rows_upto(entries, focus, root, upto).contains(Row::Entry(i)) <==> (i < upto && is_shown(
            entries,
            focus,
            root,
            i as int,
        )),
        rows_upto(entries, focus, root, upto).contains(Row::Parent) <==> focus != root,
    decreases upto,
{
    let rows = rows_upto(entries, focus, root, upto);
    if upto > 0 {
        lemma_rows_hold_shown(entries, focus, root, upto - 1, i);
        let before = rows_upto(entries, focus, root, upto - 1);
        if is_shown(entries, focus, root, upto - 1) {
            let added = Row::Entry((upto - 1) as usize);
            assert(rows[rows.len() - 1] == added);
            if before.contains(Row::Entry(i)) {
                let k = choose|k: int| 0 <= k < before.len() && before[k] == Row::Entry(i);
                assert(rows[k] == Row::Entry(i));
            }
            if before.contains(Row::Parent) {
                let k = choose|k: int| 0 <= k < before.len() && before[k] == Row::Parent;
                assert(rows[k] == Row::Parent);
            }
        }
    }
}

/// The visibility invariant in full: the row of an entry is among the rows
/// if and only if, with the whole tree in focus, every directory that
/// encloses the entry is expanded, or, with a directory in focus, the
/// entry lies directly in it.
pub proof fn lemma_visibility(entries: Seq<TuiEntry>, focus: Seq<char>, root: Seq<char>, i: usize)
    requires
        well_shaped(entries),
        i < entries.len() <= usize::MAX,
    ensures
        visible_rows(entries, focus, root).contains(Row::Entry(i)) <==> if focus == root {
            forall|j: int| encloses(entries, j, i as int) ==> (#[trigger] entries[j]).expanded
        } else {
            shown_in_dir(entries, focus, i as int)
        },
{
    lemma_rows_hold_shown(entries, focus, root, entries.len() as int, i);
    lemma_shown_iff_enclosing_expanded(entries, i as int);
}

/// Refresh stability, expansion: a directory that was expanded and is
/// among the fresh entries is expanded after the refresh.
pub proof fn lemma_refresh_keeps_expansion(
    before: TuiApp,
    fresh: Seq<TreeEntry>,
    after: TuiApp,
    was: int,
    now: int,
)
    requires
        refreshed(before, fresh, after),
        0 <= was < before.entries@.len(),
        before.entries@[was].expanded,
        before.entries@[was].data.is_directory,
        0 <= now < fresh.len(),
        fresh[now].is_directory,
        fresh[now].path@ == before.entries@[was].data.path@,
    ensures
        after.entries@[now].data == fresh[now],
        after.entries@[now].expanded,
{
}

/// Refresh stability, selection: if the path that was selected has a row
/// after the refresh, the selection is on that path.
pub proof fn lemma_refresh_keeps_selection(before: TuiApp, fresh: Seq<TreeEntry>, after: TuiApp)
    requires
        refreshed(before, fresh, after),
        rows_in_range(after.visible@, after.entries@.len()),
        after.visible@.len() <= usize::MAX,
        selected_path(before) is Some,
        row_of_path(
            after.visible@,
            after.entries@,
            selected_path(before)->0,
            after.visible@.len() as int,
        ) is Some,
    ensures
        selected_path(after) == selected_path(before),
{
    lemma_row_of_path_in_range(
        after.visible@,
        after.entries@,
        selected_path(before)->0,
        after.visible@.len() as int,
    );
}

proof fn lemma_row_of_path_finds(rows: Seq<Row>, entries: Seq<TuiEntry>, path: Seq<char>, upto: int, at: int)
    requires
        0 <= at < upto <= rows.len(),
        rows[at] matches Row::Entry(i) && entries[i as int].data.path@ == path,
    ensures
        row_of_path(rows, entries, path, upto) is Some,
    decreases upto,
{
    if at < upto - 1 {
        lemma_row_of_path_finds(rows, entries, path, upto - 1, at);
    }
}

proof fn lemma_enclosed_is_shown(entries: Seq<TuiEntry>, root: Seq<char>, now: usize)
    requires
        well_shaped(entries),
        now < entries.len() <= usize::MAX,
        forall|j: int| encloses(entries, j, now as int) ==> (#[trigger] entries[j]).expanded,
    ensures
        row_of_path(
            visible_rows(entries, root, root),
            entries,
            entries[now as int].data.path@,
            visible_rows(entries, root, root).len() as int,
        ) is Some,
        visible_rows(entries, root, root).len() <= usize::MAX,
        rows_in_range(visible_rows(entries, root, root), entries.len()),
{
    let rows = visible_rows(entries, root, root);
    lemma_visibility(entries, root, root, now);
    lemma_rows_in_range(entries, root, root, entries.len() as int);
    lemma_rows_length(entries, root, entries.len() as int);
    let at = choose|at: int| 0 <= at < rows.len() && rows[at] == Row::Entry(now);
    lemma_row_of_path_finds(rows, entries, entries[now as int].data.path@, rows.len() as int, at);
}

/// Refresh stability, in full: with the whole tree in focus and no search
/// going on, if the path that was selected is among the fresh entries and
/// every directory that encloses it there was expanded, the selection is
/// on that path after the refresh.
pub proof fn lemma_refresh_keeps_visible_selection(
    before: TuiApp,
    fresh: Seq<TreeEntry>,
    after: TuiApp,
    now: usize,
)
    requires
        refreshed(before, fresh, after),
        before.mode == Mode::Normal,
        before.current_dir@ == before.root_dir@,
        well_shaped(after.entries@),
        now < after.entries@.len() <= usize::MAX,
        selected_path(before) == Some(after.entries@[now as int].data.path@),
        forall|j: int|
            encloses(after.entries@, j, now as int) ==> was_expanded(
                before.entries@,
                (#[trigger] after.entries@[j]).data.path@,
                before.entries@.len() as int,
            ),
    ensures
        selected_path(after) == selected_path(before),
{
    lemma_enclosed_is_shown(after.entries@, before.root_dir@, now);
    lemma_refresh_keeps_selection(before, fresh, after);
}

proof fn lemma_rows_length(entries: Seq<TuiEntry>, root: Seq<char>, upto: int)
    requires
        0 <= upto,
    ensures
        rows_upto(entries, root, root, upto).len() <= upto,
    decreases upto,
{
    if upto > 0 {
        lemma_rows_length(entries, root, upto - 1);
    }
}

} // verus!
