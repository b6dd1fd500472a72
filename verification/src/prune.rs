//! Dropping the directories that no listed file lies below.

use crate::order::all_below;
use crate::permute::{lemma_pending_settle, pending, picked};
use crate::tree::{EntryView, TreeEntry};
use vstd::hash_map::StringHashMap;
use vstd::prelude::*;
use vstd::string::*;

verus! {

/// The entries with their strings as character sequences.
pub open spec fn entry_views(entries: Seq<TreeEntry>) -> Seq<EntryView> {
    Seq::new(entries.len(), |i: int| entries[i]@)
}

/// Position of the first among the first `upto` entries that has the path `path`.
pub open spec fn first_upto(views: Seq<EntryView>, path: Seq<char>, upto: int) -> Option<int>
    decreases upto,
{
    if upto <= 0 {
        None
    } else {
        match first_upto(views, path, upto - 1) {
            Some(j) => Some(j),
            None => if views[upto - 1].path == path {
                Some(upto - 1)
            } else {
                None
            },
        }
    }
}

/// Position of the first entry that has the path `path`.
pub open spec fn first_with_path(views: Seq<EntryView>, path: Seq<char>) -> Option<int> {
    first_upto(views, path, views.len() as int)
}

/// Position of the entry that directly contains the entry at `i`, if it is listed.
pub open spec fn parent_position(views: Seq<EntryView>, i: int) -> Option<int> {
    match views[i].parent {
        Some(p) => first_with_path(views, p),
        None => None,
    }
}

/// Position of the listed directory that is `steps + 1` levels above the
/// entry at `f`, if the chain of listed directories reaches that far.
pub open spec fn climb(views: Seq<EntryView>, f: int, steps: nat) -> Option<int>
    decreases steps,
{
    if steps == 0 {
        parent_position(views, f)
    } else {
        match climb(views, f, (steps - 1) as nat) {
            Some(j) => parent_position(views, j),
            None => None,
        }
    }
}

/// Whether a listed file lies below the entry at `j`, at any depth.
pub open spec fn holds_file(views: Seq<EntryView>, j: int) -> bool {
    exists|f: int, steps: nat|
        0 <= f < views.len() && !views[f].is_directory && #[trigger] climb(views, f, steps)
            == Some(j)
}

/// Whether the entry at `i` stays: a file always, a directory if a listed
/// file lies below it.
pub open spec fn survives(views: Seq<EntryView>, i: int) -> bool {
    !views[i].is_directory || match first_with_path(views, views[i].path) {
        Some(j) => holds_file(views, j),
        None => false,
    }
}

/// Positions, ascending, of the entries that stay among the first `upto`.
pub open spec fn survivors_upto(views: Seq<EntryView>, upto: int) -> Seq<usize>
    decreases upto,
{
    if upto <= 0 {
        Seq::empty()
    } else {
        let before = survivors_upto(views, upto - 1);
        if survives(views, upto - 1) {
            before.push((upto - 1) as usize)
        } else {
            before
        }
    }
}

/// Positions, ascending, of the entries that stay.
pub open spec fn survivors(views: Seq<EntryView>) -> Seq<usize> {
    survivors_upto(views, views.len() as int)
}

/// The entries that stay are entries of the list.
pub proof fn lemma_survivors_below(views: Seq<EntryView>, upto: int)
    requires
        upto <= views.len() <= usize::MAX,
    ensures
        all_below(survivors_upto(views, upto), views.len()),
    decreases upto,
{
    if upto > 0 {
        lemma_survivors_below(views, upto - 1);
    }
}

proof fn lemma_first_in_range(views: Seq<EntryView>, path: Seq<char>, upto: int)
    requires
        upto <= views.len(),
    ensures
        first_upto(views, path, upto) matches Some(j) ==> 0 <= j < upto && views[j].path == path,
    decreases upto,
{
    if upto > 0 {
        lemma_first_in_range(views, path, upto - 1);
    }
}

/// The map knows, for every path, the first entry that has it.
pub open spec fn finds_first(index: Map<Seq<char>, usize>, views: Seq<EntryView>, upto: int) -> bool {
    forall|p: Seq<char>|
        (#[trigger] index.contains_key(p) <==> first_upto(views, p, upto) is Some) && (
        index.contains_key(p) ==> first_upto(views, p, upto) == Some(index[p] as int))
}

/// Maps each path to the position of the first entry that has it.
pub fn index_paths(entries: &Vec<TreeEntry>) -> (index: StringHashMap<usize>)
    ensures
        finds_first(index@, entry_views(entries@), entries@.len() as int),
{
    let ghost views = entry_views(entries@);
    let mut index: StringHashMap<usize> = StringHashMap::new();
    let mut i: usize = 0;
    while i < entries.len()
        invariant
            i <= entries@.len(),
            views == entry_views(entries@),
            finds_first(index@, views, i as int),
        decreases entries@.len() - i,
    {
        if !index.contains_key(entries[i].path.as_str()) {
            index.insert(entries[i].path.clone(), i);
        }
        i += 1;
    }
    index
}

/// Every marked directory has its listed parent marked too, but for the one
/// at `open`, whose parent is still to be looked at.
pub open spec fn closed_but(views: Seq<EntryView>, marked: Seq<bool>, open: Option<int>) -> bool {
    forall|j: int|
        0 <= j < marked.len() && #[trigger] marked[j] && open != Some(j) ==> (parent_position(
            views,
            j,
        ) matches Some(q) ==> 0 <= q < marked.len() && marked[q])
}

proof fn lemma_closed_chain(views: Seq<EntryView>, marked: Seq<bool>, f: int, steps: nat)
    requires
        marked.len() == views.len(),
        closed_but(views, marked, None),
        0 <= f < views.len(),
        parent_position(views, f) matches Some(q) ==> 0 <= q < marked.len() && marked[q],
    ensures
        climb(views, f, steps) matches Some(j) ==> 0 <= j < marked.len() && marked[j],
    decreases steps,
{
    if steps > 0 {
        lemma_closed_chain(views, marked, f, (steps - 1) as nat);
    }
}

proof fn lemma_parent_in_range(views: Seq<EntryView>, i: int)
    ensures
        parent_position(views, i) matches Some(q) ==> 0 <= q < views.len(),
{
    if views[i].parent is Some {
        lemma_first_in_range(views, views[i].parent->0, views.len() as int);
    }
}

fn parent_slot(entries: &Vec<TreeEntry>, index: &StringHashMap<usize>, i: usize) -> (slot: Option<usize>)
    requires
        i < entries@.len(),
        finds_first(index@, entry_views(entries@), entries@.len() as int),
    ensures
        match slot {
            Some(q) => parent_position(entry_views(entries@), i as int) == Some(q as int) && q
                < entries@.len(),
            None => parent_position(entry_views(entries@), i as int) is None,
        },
{
    proof {
        lemma_parent_in_range(entry_views(entries@), i as int);
    }
    match &entries[i].parent {
        Some(p) => match index.get(p.as_str()) {
            Some(q) => Some(*q),
            None => None,
        },
        None => None,
    }
}

/// Marks every directory that a listed file lies below, by following each
/// file's chain of directories upwards until it meets one already marked.
pub fn mark_occupied(entries: &Vec<TreeEntry>, index: &StringHashMap<usize>) -> (marked: Vec<bool>)
    requires
        finds_first(index@, entry_views(entries@), entries@.len() as int),
    ensures
        marked@.len() == entries@.len(),
        forall|j: int|
            0 <= j < marked@.len() ==> (#[trigger] marked@[j] <==> holds_file(
                entry_views(entries@),
                j,
            )),
{
    let ghost views = entry_views(entries@);
    let n: usize = entries.len();
    let mut marked: Vec<bool> = Vec::new();
    let mut k: usize = 0;
    while k < n
        invariant
            k <= n,
            marked@.len() == k,
            forall|i: int| 0 <= i < k ==> !marked@[i],
        decreases n - k,
    {
        marked.push(false);
        k += 1;
    }
    let mut f: usize = 0;
    while f < n
        invariant
            f <= n,
            n == entries@.len(),
            views == entry_views(entries@),
            marked@.len() == n,
            finds_first(index@, views, n as int),
            closed_but(views, marked@, None),
            forall|j: int| 0 <= j < n && #[trigger] marked@[j] ==> holds_file(views, j),
            forall|g: int|
                0 <= g < f && !(#[trigger] views[g]).is_directory ==> (parent_position(views, g) matches Some(
                    q,
                ) ==> 0 <= q < n && marked@[q]),
        decreases n - f,
    {
        if !entries[f].is_directory {
            let mut from: usize = f;
            let ghost mut steps: nat = 0;
            let mut going: bool = true;
            while going
                invariant
                    f < n,
                    from < n,
                    n == entries@.len(),
                    views == entry_views(entries@),
                    marked@.len() == n,
                    !views[f as int].is_directory,
                    finds_first(index@, views, n as int),
                    going ==> closed_but(
                        views,
                        marked@,
                        if from == f {
                            None
                        } else {
                            Some(from as int)
                        },
                    ),
                    !going ==> closed_but(views, marked@, None) && (parent_position(
                        views,
                        f as int,
                    ) matches Some(q) ==> 0 <= q < n && marked@[q]),
                    from != f ==> marked@[from as int] && climb(views, f as int, steps) == Some(
                        from as int,
                    ) && (parent_position(views, f as int) matches Some(q) ==> 0 <= q < n
                        && marked@[q]),
                    forall|j: int| 0 <= j < n && #[trigger] marked@[j] ==> holds_file(views, j),
                    forall|g: int|
                        0 <= g < f && !(#[trigger] views[g]).is_directory ==> (parent_position(
                            views,
                            g,
                        ) matches Some(q) ==> 0 <= q < n && marked@[q]),
                decreases pending(marked@), going as int,
            {
                match parent_slot(entries, index, from) {
                    Some(q) => {
                        if marked[q] {
                            going = false;
                        } else {
                            proof {
                                lemma_pending_settle(marked@, q as int);
                                let next: nat = if from == f {
                                    0
                                } else {
                                    steps + 1
                                };
                                steps = next;
                            }
                            marked.set(q, true);
                            from = q;
                        }
                    },
                    None => {
                        going = false;
                    },
                }
            }
        }
        f += 1;
    }
    proof {
        assert forall|j: int| 0 <= j < n && holds_file(views, j) implies marked@[j] by {
            let (g, steps) = choose|g: int, steps: nat|
                0 <= g < views.len() && !views[g].is_directory && #[trigger] climb(views, g, steps)
                    == Some(j);
            lemma_closed_chain(views, marked@, g, steps);
        }
    }
    marked
}

/// The positions of the entries that stay.
pub fn surviving_positions(entries: &Vec<TreeEntry>) -> (kept: Vec<usize>)
    ensures
        kept@ == survivors(entry_views(entries@)),
        all_below(kept@, entries@.len()),
{
    let ghost views = entry_views(entries@);
    let index = index_paths(entries);
    let marked = mark_occupied(entries, &index);
    let n: usize = entries.len();
    let mut kept: Vec<usize> = Vec::new();
    let mut i: usize = 0;
    while i < n
        invariant
            i <= n,
            n == entries@.len(),
            views == entry_views(entries@),
            marked@.len() == n,
            finds_first(index@, views, n as int),
            forall|j: int|
                0 <= j < marked@.len() ==> (#[trigger] marked@[j] <==> holds_file(views, j)),
            kept@ == survivors_upto(views, i as int),
        decreases n - i,
    {
        let stays = if !entries[i].is_directory {
            true
        } else {
            proof {
                lemma_first_in_range(views, views[i as int].path, n as int);
            }
            match index.get(entries[i].path.as_str()) {
                Some(j) => marked[*j],
                None => false,
            }
        };
        if stays {
            kept.push(i);
        }
        i += 1;
    }
    proof {
        lemma_survivors_below(views, n as int);
    }
    kept
}

/// Copies of the entries at the positions that `order` names, in that order.
pub fn pick_entries(entries: &Vec<TreeEntry>, order: &Vec<usize>) -> (copies: Vec<TreeEntry>)
    requires
        all_below(order@, entries@.len()),
    ensures
        copies@ == picked(entries@, order@),
{
    let mut copies: Vec<TreeEntry> = Vec::new();
    let mut k: usize = 0;
    while k < order.len()
        invariant
            k <= order@.len(),
            all_below(order@, entries@.len()),
            copies@.len() == k,
            forall|j: int| 0 <= j < k ==> copies@[j] == entries@[order@[j] as int],
        decreases order@.len() - k,
    {
        copies.push(entries[order[k]].duplicate());
        k += 1;
    }
    copies
}

} // verus!
