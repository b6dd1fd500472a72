//! The order that keeps a tree's shape: siblings sorted among themselves, each
//! record directly followed by what lies below it.

use crate::order::{all_below, key_views, lemma_sorted_order_below, sort_positions, sorted_order};
use crate::permute::picked;
use crate::record::{opt_view, RawRecord};
use crate::sort::{record_keys, EntryCache, SortOptions};
use vstd::hash_map::StringHashMap;
use vstd::prelude::*;
use vstd::string::*;

verus! {

/// Positions, ascending, of those among the first `upto` records whose parent
/// path is `parent`.
pub open spec fn children_upto(records: Seq<RawRecord>, parent: Seq<char>, upto: int) -> Seq<usize>
    decreases upto,
{
    if upto <= 0 {
        Seq::empty()
    } else {
        let before = children_upto(records, parent, upto - 1);
        if opt_view(records[upto - 1].parent) == Some(parent) {
            before.push((upto - 1) as usize)
        } else {
            before
        }
    }
}

/// Positions, ascending, of the records whose parent path is `parent`.
pub open spec fn children_of(records: Seq<RawRecord>, parent: Seq<char>) -> Seq<usize> {
    children_upto(records, parent, records.len() as int)
}

/// Positions, ascending, of those among the first `upto` records that have depth 1.
pub open spec fn roots_upto(records: Seq<RawRecord>, upto: int) -> Seq<usize>
    decreases upto,
{
    if upto <= 0 {
        Seq::empty()
    } else {
        let before = roots_upto(records, upto - 1);
        if records[upto - 1].depth == 1 {
            before.push((upto - 1) as usize)
        } else {
            before
        }
    }
}

/// Positions, ascending, of the records directly below the scan root.
pub open spec fn roots_of(records: Seq<RawRecord>) -> Seq<usize> {
    roots_upto(records, records.len() as int)
}

/// The children of a path are records of the list, each with that parent path.
pub proof fn lemma_children_below(records: Seq<RawRecord>, parent: Seq<char>, upto: int)
    requires
        upto <= records.len() <= usize::MAX,
    ensures
        all_below(children_upto(records, parent, upto), records.len()),
        forall|k: int|
            0 <= k < children_upto(records, parent, upto).len() ==> opt_view(
                records[#[trigger] children_upto(records, parent, upto)[k] as int].parent,
            ) == Some(parent),
    decreases upto,
{
    if upto > 0 {
        lemma_children_below(records, parent, upto - 1);
    }
}

/// The records of depth 1 are records of the list.
pub proof fn lemma_roots_below(records: Seq<RawRecord>, upto: int)
    requires
        upto <= records.len() <= usize::MAX,
    ensures
        all_below(roots_upto(records, upto), records.len()),
    decreases upto,
{
    if upto > 0 {
        lemma_roots_below(records, upto - 1);
    }
}

/// The children of `parent` in sorted order.
pub open spec fn sorted_children(records: Seq<RawRecord>, options: SortOptions, parent: Seq<char>) -> Seq<
    usize,
> {
    sorted_order(record_keys(records, options), options, children_of(records, parent))
}

/// The record at `i` followed by everything below it, down to `levels` levels:
/// after the record come its sorted children, each with what is below it.
pub open spec fn subtree(records: Seq<RawRecord>, options: SortOptions, i: usize, levels: nat) -> Seq<
    usize,
>
    decreases levels, 0nat,
{
    if levels == 0 {
        seq![i]
    } else {
        seq![i] + forest(
            records,
            options,
            sorted_children(records, options, records[i as int].path@),
            (levels - 1) as nat,
        )
    }
}

/// The subtrees of `heads`, one after the other.
pub open spec fn forest(records: Seq<RawRecord>, options: SortOptions, heads: Seq<usize>, levels: nat) -> Seq<
    usize,
>
    decreases levels, heads.len() + 1,
{
    if heads.len() == 0 {
        Seq::empty()
    } else {
        subtree(records, options, heads[0], levels) + forest(
            records,
            options,
            heads.drop_first(),
            levels,
        )
    }
}

/// The positions of `records` in hierarchical order: the sorted records of
/// depth 1, each followed by its subtree. A chain of nested records is never
/// longer than the list, which bounds the levels.
pub open spec fn hierarchical_order(records: Seq<RawRecord>, options: SortOptions) -> Seq<usize> {
    forest(
        records,
        options,
        sorted_order(record_keys(records, options), options, roots_of(records)),
        records.len(),
    )
}

/// What a hierarchical sort makes of `records`: a list of at most one record
/// stays as it is, a longer one is laid out in hierarchical order.
pub open spec fn hierarchical_result(records: Seq<RawRecord>, options: SortOptions) -> Seq<
    RawRecord,
> {
    if records.len() <= 1 {
        records
    } else {
        picked(records, hierarchical_order(records, options))
    }
}

/// The children lists of every parent path, found by path.
pub struct ChildIndex {
    pub slot_of: StringHashMap<usize>,
    pub groups: Vec<Vec<usize>>,
    /// The parent path that each list belongs to.
    pub owners: Ghost<Seq<Seq<char>>>,
}

impl ChildIndex {
    /// Each known parent path has a list of its own, which holds its children
    /// among the first `upto` records; an unknown path has none among them.
    pub open spec fn groups_upto(self, records: Seq<RawRecord>, upto: int) -> bool {
        &&& forall|p: Seq<char>| #[trigger]
            self.slot_of@.contains_key(p) ==> self.slot_of@[p] < self.groups@.len()
                && self.groups@[self.slot_of@[p] as int]@ == children_upto(records, p, upto)
        &&& forall|p: Seq<char>|
            !self.slot_of@.contains_key(p) ==> #[trigger] children_upto(records, p, upto)
                == Seq::<usize>::empty()
        &&& self.owned()
    }

    /// Each list belongs to exactly one known parent path.
    pub open spec fn owned(self) -> bool {
        &&& self.owners@.len() == self.groups@.len()
        &&& forall|g: int|
            0 <= g < self.groups@.len() ==> self.slot_of@.contains_key(#[trigger] self.owners@[g])
                && self.slot_of@[self.owners@[g]] == g
        &&& forall|p: Seq<char>| #[trigger]
            self.slot_of@.contains_key(p) ==> self.slot_of@[p] < self.groups@.len()
                && self.owners@[self.slot_of@[p] as int] == p
    }

    /// Each known parent path has the sorted list of its children; an unknown
    /// path has no children.
    pub open spec fn sorted_for(self, records: Seq<RawRecord>, options: SortOptions) -> bool {
        &&& forall|p: Seq<char>| #[trigger]
            self.slot_of@.contains_key(p) ==> self.slot_of@[p] < self.groups@.len()
                && self.groups@[self.slot_of@[p] as int]@ == sorted_children(records, options, p)
        &&& forall|p: Seq<char>|
            !self.slot_of@.contains_key(p) ==> #[trigger] children_of(records, p) == Seq::<
                usize,
            >::empty()
    }

    /// Groups the positions of `entries` by parent path, in the order they come.
    pub fn group(entries: &Vec<RawRecord>) -> (index: ChildIndex)
        ensures
            index.groups_upto(entries@, entries@.len() as int),
    {
        let mut index = ChildIndex {
            slot_of: StringHashMap::new(),
            groups: Vec::new(),
            owners: Ghost(Seq::empty()),
        };
        let mut i: usize = 0;
        while i < entries.len()
            invariant
                i <= entries@.len(),
                index.groups_upto(entries@, i as int),
            decreases entries@.len() - i,
        {
            match &entries[i].parent {
                Some(parent) => {
                    let found: Option<usize> = match index.slot_of.get(parent.as_str()) {
                        Some(slot) => Some(*slot),
                        None => None,
                    };
                    match found {
                        Some(slot) => {
                            index.groups[slot].push(i);
                        },
                        None => {
                            let mut group: Vec<usize> = Vec::new();
                            group.push(i);
                            index.slot_of.insert(parent.clone(), index.groups.len());
                            index.groups.push(group);
                            proof {
                                index.owners@ = index.owners@.push(parent@);
                            }
                            assert(children_upto(entries@, parent@, i as int) == Seq::<
                                usize,
                            >::empty());
                        },
                    }
                    assert(index.groups_upto(entries@, i + 1)) by {
                        assert forall|p: Seq<char>|
                            !index.slot_of@.contains_key(p) implies #[trigger] children_upto(
                            entries@,
                            p,
                            i + 1,
                        ) == Seq::<usize>::empty() by {
                            assert(children_upto(entries@, p, i as int) == Seq::<usize>::empty());
                        }
                    }
                },
                None => {
                    assert(index.groups_upto(entries@, i + 1)) by {
                        assert forall|p: Seq<char>|
                            !index.slot_of@.contains_key(p) implies #[trigger] children_upto(
                            entries@,
                            p,
                            i + 1,
                        ) == Seq::<usize>::empty() by {
                            assert(children_upto(entries@, p, i as int) == Seq::<usize>::empty());
                        }
                    }
                },
            }
            i += 1;
        }
        index
    }

    /// Sorts every children list.
    pub fn sort_groups(
        &mut self,
        keys: &Vec<EntryCache>,
        options: &SortOptions,
        Ghost(records): Ghost<Seq<RawRecord>>,
    )
        requires
            old(self).groups_upto(records, records.len() as int),
            key_views(keys@) == record_keys(records, *options),
            records.len() == keys@.len(),
        ensures
            final(self).sorted_for(records, *options),
    {
        let ghost views = record_keys(records, *options);
        let count: usize = keys.len();
        let mut g: usize = 0;
        while g < self.groups.len()
            invariant
                g <= self.groups@.len(),
                count == keys@.len(),
                self.owned(),
                self.slot_of == old(self).slot_of,
                self.groups@.len() == old(self).groups@.len(),
                views == record_keys(records, *options),
                key_views(keys@) == views,
                records.len() == keys@.len(),
                old(self).groups_upto(records, records.len() as int),
                forall|h: int|
                    0 <= h < g ==> (#[trigger] self.groups@[h])@ == sorted_order(
                        views,
                        *options,
                        old(self).groups@[h]@,
                    ),
                forall|h: int| g <= h < self.groups@.len() ==> self.groups@[h] == old(self).groups@[h],
            decreases self.groups@.len() - g,
        {
            proof {
                let p = self.owners@[g as int];
                lemma_children_below(records, p, records.len() as int);
            }
            let sorted = sort_positions(keys, options, &self.groups[g]);
            self.groups.set(g, sorted);
            g += 1;
        }
    }
}

/// Appends the record at `i` and then, through its sorted children, all that
/// lies below it, down to `levels` levels.
pub fn collect_tree_recursive(
    index: &ChildIndex,
    entries: &Vec<RawRecord>,
    i: usize,
    levels: usize,
    result: &mut Vec<usize>,
    Ghost(options): Ghost<SortOptions>,
)
    requires
        index.sorted_for(entries@, options),
        i < entries@.len(),
        all_below(old(result)@, entries@.len()),
    ensures
        final(result)@ == old(result)@ + subtree(entries@, options, i, levels as nat),
        all_below(final(result)@, entries@.len()),
    decreases levels,
{
    let count: usize = entries.len();
    result.push(i);
    if levels == 0 {
        return ;
    }
    let ghost heads = sorted_children(entries@, options, entries@[i as int].path@);
    let ghost base = result@;
    proof {
        lemma_children_below(entries@, entries@[i as int].path@, entries@.len() as int);
        lemma_sorted_order_below(
            record_keys(entries@, options),
            options,
            children_of(entries@, entries@[i as int].path@),
            entries@.len(),
        );
    }
    match index.slot_of.get(entries[i].path.as_str()) {
        Some(slot) => {
            let children = &index.groups[*slot];
            let mut k: usize = 0;
            assert(heads.skip(0) =~= heads);
            while k < children.len()
                invariant
                    k <= children@.len(),
                    levels > 0,
                    children@ == heads,
                    all_below(heads, entries@.len()),
                    index.sorted_for(entries@, options),
                    all_below(result@, entries@.len()),
                    result@ + forest(entries@, options, heads.skip(k as int), (levels - 1) as nat)
                        == base + forest(entries@, options, heads, (levels - 1) as nat),
                decreases children@.len() - k,
            {
                let ghost rest = heads.skip(k as int);
                assert(rest.drop_first() =~= heads.skip(k + 1));
                collect_tree_recursive(index, entries, children[k], levels - 1, result, Ghost(options));
                k += 1;
            }
        },
        None => {},
    }
}

/// The positions of the records of depth 1, ascending.
pub fn collect_roots(entries: &Vec<RawRecord>) -> (roots: Vec<usize>)
    ensures
        roots@ == roots_of(entries@),
        all_below(roots@, entries@.len()),
{
    let mut roots: Vec<usize> = Vec::new();
    let mut i: usize = 0;
    while i < entries.len()
        invariant
            i <= entries@.len(),
            roots@ == roots_upto(entries@, i as int),
        decreases entries@.len() - i,
    {
        if entries[i].depth == 1 {
            roots.push(i);
        }
        i += 1;
    }
    proof {
        lemma_roots_below(entries@, entries@.len() as int);
    }
    roots
}

/// Copies of the records at the positions that `order` names, in that order.
pub fn pick_copies(entries: &Vec<RawRecord>, order: &Vec<usize>) -> (copies: Vec<RawRecord>)
    requires
        all_below(order@, entries@.len()),
    ensures
        copies@ == picked(entries@, order@),
{
    let mut copies: Vec<RawRecord> = Vec::new();
    let mut k: usize = 0;
    while k < order.len()
        invariant
            k <= order@.len(),
            all_below(order@, entries@.len()),
            copies@.len() == k,
            forall|j: int| 0 <= j < k ==> copies@[j] == entries@[order@[j] as int],
        decreases order@.len() - k,
    {
        copies.push(entries[order[k]].duplicate());
        k += 1;
    }
    copies
}

/// The positions of `entries` in hierarchical order.
pub fn hierarchical_positions(entries: &Vec<RawRecord>, keys: &Vec<EntryCache>, options: &SortOptions) -> (order:
    Vec<usize>)
    requires
        key_views(keys@) == record_keys(entries@, *options),
        keys@.len() == entries@.len(),
    ensures
        order@ == hierarchical_order(entries@, *options),
        all_below(order@, entries@.len()),
{
    let mut index = ChildIndex::group(entries);
    index.sort_groups(keys, options, Ghost(entries@));
    let roots = collect_roots(entries);
    let heads = sort_positions(keys, options, &roots);
    let levels: usize = entries.len();
    let mut order: Vec<usize> = Vec::new();
    let mut k: usize = 0;
    assert(heads@.skip(0) =~= heads@);
    while k < heads.len()
        invariant
            k <= heads@.len(),
            levels == entries@.len(),
            all_below(heads@, entries@.len()),
            index.sorted_for(entries@, *options),
            all_below(order@, entries@.len()),
            order@ + forest(entries@, *options, heads@.skip(k as int), levels as nat) == forest(
                entries@,
                *options,
                heads@,
                levels as nat,
            ),
        decreases heads@.len() - k,
    {
        let ghost rest = heads@.skip(k as int);
        assert(rest.drop_first() =~= heads@.skip(k + 1));
        collect_tree_recursive(&index, entries, heads[k], levels, &mut order, Ghost(*options));
        k += 1;
    }
    order
}

} // verus!
