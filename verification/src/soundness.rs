//! Aggregation soundness: the totals of a path are the sums over all the
//! records that lie below it.

use crate::aggregate::{
    aggregated,
    clamp,
    contribution,
    folded,
    nothing,
    own_totals,
    plus,
    seeded,
    totals_at,
    Totals,
};
use crate::ancestry::{
    complete_walk, is_ancestor, is_parent_of, lemma_ancestors_come_first, lemma_child_link,
    lemma_hierarchical_sort_rearranges, link, valid_walk,
};
use crate::config::{sort_options_of, Args};
use crate::hierarchy::hierarchical_result;
use crate::order::all_below;
use crate::permute::picked;
use crate::record::{opt_view, RawRecord};
use crate::sort::SortOptions;
use crate::tree::{
    filtered,
    kept_positions,
    laid_out,
    lemma_kept_below,
    lemma_shown_in_range,
    passes_filters,
    passing_upto,
    prepared,
    shown_positions,
    Tree,
};
use vstd::prelude::*;

verus! {

/// What one record counts for in the totals of what it lies below: a
/// directory as one directory, a file as one file of its size.
pub open spec fn unit(record: RawRecord) -> Totals {
    if record.is_dir {
        Totals { size: 0, dirs: 1, files: 0 }
    } else {
        Totals { size: record.own_size() as nat, dirs: 0, files: 1 }
    }
}

/// The sum of what the records count for, over those among the first `upto`
/// whose position satisfies `pred`.
pub open spec fn sum_where(records: Seq<RawRecord>, pred: spec_fn(int) -> bool, upto: int) -> Totals
    decreases upto,
{
    if upto <= 0 {
        nothing()
    } else {
        let before = sum_where(records, pred, upto - 1);
        if pred(upto - 1) {
            plus(before, unit(records[upto - 1]))
        } else {
            before
        }
    }
}

/// Every record comes after the directory that contains it, as in a
/// depth-first scan.
pub open spec fn parents_first(records: Seq<RawRecord>) -> bool {
    forall|i: int, j: int|
        0 <= i < records.len() && #[trigger] is_parent_of(records, j, i) ==> j < i
}

/// Position of the record directly in the directory `path` through which
/// the record at `k` lies below that directory: `k` itself if it lies
/// directly in it; -1 if it does not lie below it.
pub open spec fn gateway(records: Seq<RawRecord>, path: Seq<char>, k: int) -> int
    decreases records[k].path@.len(),
{
    if opt_view(records[k].parent) == Some(path) {
        k
    } else {
        match link(records, k) {
            Some(c) => if records[c].path@.len() < records[k].path@.len() {
                gateway(records, path, c)
            } else {
                -1
            },
            None => -1,
        }
    }
}

/// Whether the record at `k` lies below the directory `path`, directly or
/// through directories of the list.
pub open spec fn lies_below(records: Seq<RawRecord>, path: Seq<char>, k: int) -> bool {
    gateway(records, path, k) >= 0
}

/// The positions through which something lies below `path` from `from` on.
pub open spec fn reached_from(records: Seq<RawRecord>, path: Seq<char>, from: int) -> spec_fn(int) -> bool {
    |k: int| gateway(records, path, k) >= from
}

/// The positions that lie below `path` through the position `at`.
pub open spec fn reached_through(records: Seq<RawRecord>, path: Seq<char>, at: int) -> spec_fn(int) -> bool {
    |k: int| gateway(records, path, k) == at
}

/// The one position `at`.
pub open spec fn only(at: int) -> spec_fn(int) -> bool {
    |k: int| k == at
}

/// The positions of the records that lie below the record at `i`.
pub open spec fn below_record(records: Seq<RawRecord>, i: int) -> spec_fn(int) -> bool {
    |k: int| is_ancestor(records, i, k)
}

proof fn lemma_sum_same(records: Seq<RawRecord>, p: spec_fn(int) -> bool, q: spec_fn(int) -> bool, upto: int)
    requires
        forall|k: int| 0 <= k < upto ==> #[trigger] p(k) == q(k),
    ensures
        sum_where(records, p, upto) == sum_where(records, q, upto),
    decreases upto,
{
    if upto > 0 {
        lemma_sum_same(records, p, q, upto - 1);
    }
}

proof fn lemma_sum_split(
    records: Seq<RawRecord>,
    p: spec_fn(int) -> bool,
    a: spec_fn(int) -> bool,
    b: spec_fn(int) -> bool,
    upto: int,
)
    requires
        forall|k: int| 0 <= k < upto ==> (#[trigger] p(k) <==> (a(k) || b(k))) && !(a(k) && b(k)),
    ensures
        sum_where(records, p, upto) == plus(sum_where(records, a, upto), sum_where(records, b, upto)),
    decreases upto,
{
    if upto > 0 {
        lemma_sum_split(records, p, a, b, upto - 1);
    }
}

proof fn lemma_sum_none(records: Seq<RawRecord>, p: spec_fn(int) -> bool, upto: int)
    requires
        forall|k: int| 0 <= k < upto ==> !#[trigger] p(k),
    ensures
        sum_where(records, p, upto) == nothing(),
    decreases upto,
{
    if upto > 0 {
        lemma_sum_none(records, p, upto - 1);
    }
}

proof fn lemma_sum_single(records: Seq<RawRecord>, at: int, upto: int)
    requires
        0 <= at,
    ensures
        sum_where(records, only(at), upto) == if at < upto {
            unit(records[at])
        } else {
            nothing()
        },
    decreases upto,
{
    if upto > 0 {
        lemma_sum_single(records, at, upto - 1);
    }
}

/// What `gateway` names is a record directly in the directory, not after the
/// record it was asked for, and the directory's path is shorter than that
/// record's.
proof fn lemma_gateway_is_child(records: Seq<RawRecord>, path: Seq<char>, k: int)
    requires
        valid_walk(records),
        parents_first(records),
        0 <= k < records.len(),
    ensures
        -1 <= gateway(records, path, k) && gateway(records, path, k) <= k,
        lies_below(records, path, k) ==> opt_view(records[gateway(records, path, k)].parent) == Some(
            path,
        ) && path.len() < records[k].path@.len(),
    decreases records[k].path@.len(),
{
    if opt_view(records[k].parent) != Some(path) {
        if link(records, k) is Some {
            let c = link(records, k)->0;
            if records[c].path@.len() < records[k].path@.len() {
                lemma_gateway_is_child(records, path, c);
            }
        }
    }
}

/// Lying below the path of a record is lying below the record.
proof fn lemma_below_path_is_below_record(records: Seq<RawRecord>, i: int, k: int)
    requires
        valid_walk(records),
        0 <= i < records.len(),
        0 <= k < records.len(),
    ensures
        lies_below(records, records[i].path@, k) <==> is_ancestor(records, i, k),
    decreases records[k].path@.len(),
{
    let path = records[i].path@;
    if opt_view(records[k].parent) == Some(path) {
        lemma_child_link(records, i, k);
    } else if link(records, k) is Some {
        let c = link(records, k)->0;
        if records[c].path@.len() < records[k].path@.len() {
            lemma_below_path_is_below_record(records, i, c);
        }
    }
}

/// With a record directly in the directory `dir`, the records that lie below
/// `dir` through it are the record itself and those that lie below it.
proof fn lemma_through_child(records: Seq<RawRecord>, dir: Seq<char>, at: int, k: int)
    requires
        valid_walk(records),
        parents_first(records),
        0 <= at < records.len(),
        0 <= k < records.len(),
        opt_view(records[at].parent) == Some(dir),
    ensures
        gateway(records, dir, k) == at <==> (k == at || lies_below(records, records[at].path@, k)),
        !(k == at && lies_below(records, records[at].path@, k)),
    decreases records[k].path@.len(),
{
    let here = records[at].path@;
    lemma_gateway_is_child(records, here, k);
    if k == at {
        // The record itself: it does not lie below itself.
    } else if opt_view(records[k].parent) == Some(here) {
        // Directly in the record: its link is the record.
        lemma_child_link(records, at, k);
        assert(gateway(records, dir, at) == at);
    } else if opt_view(records[k].parent) == Some(dir) {
        // Directly in the directory, beside the record.
        if link(records, k) is Some {
            let c = link(records, k)->0;
            if records[c].path@.len() < records[k].path@.len() {
                lemma_gateway_is_child(records, here, c);
            }
        }
    } else if link(records, k) is Some {
        let c = link(records, k)->0;
        if records[c].path@.len() < records[k].path@.len() {
            lemma_through_child(records, dir, at, c);
        }
    }
}

/// Before anything is summed, every record's path holds the record by itself.
proof fn lemma_seeded_own(records: Seq<RawRecord>, root: Seq<char>, upto: int)
    requires
        valid_walk(records),
        0 <= upto <= records.len(),
    ensures
        forall|i: int|
            0 <= i < upto ==> totals_at(seeded(records, root, upto), (#[trigger] records[i]).path@)
                == own_totals(records[i]),
        forall|p: Seq<char>|
            (forall|i: int| 0 <= i < upto ==> (#[trigger] records[i]).path@ != p) ==> #[trigger] totals_at(
                seeded(records, root, upto),
                p,
            ) == nothing(),
    decreases upto,
{
    if upto > 0 {
        lemma_seeded_own(records, root, upto - 1);
        let before = seeded(records, root, upto - 1);
        assert forall|p: Seq<char>|
            (forall|i: int| 0 <= i < upto ==> (#[trigger] records[i]).path@ != p) implies #[trigger] totals_at(
            seeded(records, root, upto),
            p,
        ) == nothing() by {
            assert(totals_at(before, p) == nothing());
        }
    }
}

/// While the records are added to their parents, last first, each path
/// holds what it held at first and all that lies below it through the
/// records added so far.
proof fn lemma_folded_sums(records: Seq<RawRecord>, root: Seq<char>, from: int, path: Seq<char>)
    requires
        valid_walk(records),
        parents_first(records),
        0 <= from <= records.len(),
    ensures
        totals_at(folded(records, root, from), path) == plus(
            totals_at(seeded(records, root, records.len() as int), path),
            sum_where(records, reached_from(records, path, from), records.len() as int),
        ),
    decreases records.len() - from,
{
    let n = records.len() as int;
    let now = reached_from(records, path, from);
    if from == n {
        assert forall|k: int| 0 <= k < n implies !#[trigger] now(k) by {
            lemma_gateway_is_child(records, path, k);
        }
        lemma_sum_none(records, now, n);
    } else {
        let after = folded(records, root, from + 1);
        let later = reached_from(records, path, from + 1);
        let record = records[from];
        lemma_folded_sums(records, root, from + 1, path);
        if opt_view(record.parent) == Some(path) {
            let here = record.path@;
            let through = reached_through(records, path, from);
            let below = reached_from(records, here, 0);
            let below_later = reached_from(records, here, from + 1);
            assert(totals_at(folded(records, root, from), path) == plus(
                totals_at(after, path),
                contribution(totals_at(after, here), record),
            ));
            // What the record holds when it is added: itself and all below it.
            lemma_folded_sums(records, root, from + 1, here);
            lemma_seeded_own(records, root, n);
            assert forall|k: int| 0 <= k < n implies #[trigger] below_later(k) == below(k) by {
                lemma_gateway_is_child(records, here, k);
                let v = gateway(records, here, k);
                if v >= 0 {
                    assert(is_parent_of(records, from, v));
                }
            }
            lemma_sum_same(records, below_later, below, n);
            // What lies below the directory from here on: what did before,
            // and what lies below it through this record.
            lemma_sum_split(records, now, later, through, n);
            assert forall|k: int| 0 <= k < n implies (#[trigger] through(k) <==> (only(from)(k)
                || below(k))) && !(only(from)(k) && below(k)) by {
                lemma_through_child(records, path, from, k);
            }
            lemma_sum_split(records, through, only(from), below, n);
            lemma_sum_single(records, from, n);
        } else {
            assert(totals_at(folded(records, root, from), path) == totals_at(after, path));
            assert forall|k: int| 0 <= k < n implies #[trigger] now(k) == later(k) by {
                lemma_gateway_is_child(records, path, k);
            }
            lemma_sum_same(records, now, later, n);
        }
    }
}

/// Aggregation soundness for a record: in a valid walk in depth-first order
/// the totals of a record's path are the record by itself and the sum over
/// all records that lie below it. For a directory these are the size of all
/// files below it, their number, and the number of directories below it.
pub proof fn lemma_aggregation_sound(records: Seq<RawRecord>, root: Seq<char>, i: int)
    requires
        valid_walk(records),
        parents_first(records),
        0 <= i < records.len(),
    ensures
        totals_at(aggregated(records, root), records[i].path@) == plus(
            own_totals(records[i]),
            sum_where(records, below_record(records, i), records.len() as int),
        ),
{
    let n = records.len() as int;
    let path = records[i].path@;
    lemma_folded_sums(records, root, 0, path);
    lemma_seeded_own(records, root, n);
    assert forall|k: int| 0 <= k < n implies #[trigger] reached_from(records, path, 0)(k)
        == below_record(records, i)(k) by {
        lemma_below_path_is_below_record(records, i, k);
    }
    lemma_sum_same(records, reached_from(records, path, 0), below_record(records, i), n);
}

/// Aggregation soundness for a path that is no record's, such as the scan
/// root: its totals are the sum over all records that lie below it.
pub proof fn lemma_aggregation_sound_at_root(records: Seq<RawRecord>, root: Seq<char>, path: Seq<char>)
    requires
        valid_walk(records),
        parents_first(records),
        forall|i: int| 0 <= i < records.len() ==> (#[trigger] records[i]).path@ != path,
    ensures
        totals_at(aggregated(records, root), path) == sum_where(
            records,
            reached_from(records, path, 0),
            records.len() as int,
        ),
{
    lemma_folded_sums(records, root, 0, path);
    lemma_seeded_own(records, root, records.len() as int);
}

/// Only directories contain records.
pub open spec fn parents_are_directories(records: Seq<RawRecord>) -> bool {
    forall|i: int, j: int|
        0 <= i < records.len() && #[trigger] is_parent_of(records, j, i) ==> records[j].is_dir
}

/// The hierarchical result of a valid and complete walk is a valid walk in
/// which every record comes after the directory that contains it.
pub proof fn lemma_hierarchical_result_is_walk(records: Seq<RawRecord>, options: SortOptions)
    requires
        valid_walk(records),
        complete_walk(records),
    ensures
        valid_walk(hierarchical_result(records, options)),
        parents_first(hierarchical_result(records, options)),
{
    let out = hierarchical_result(records, options);
    if records.len() > 1 {
        lemma_hierarchical_sort_rearranges(records, options);
        assert forall|i: int, j: int|
            0 <= i < out.len() && #[trigger] is_parent_of(out, j, i) implies j < i by {
            lemma_ancestors_come_first(records, options, j, i);
        }
    }
}

proof fn lemma_passing_shape(records: Seq<RawRecord>, args: Args, upto: int)
    requires
        0 <= upto <= records.len() <= usize::MAX,
    ensures
        all_below(passing_upto(records, args, upto), records.len()),
        passing_upto(records, args, upto).no_duplicates(),
        passing_upto(records, args, upto).len() <= upto,
        forall|k: int|
            0 <= k < passing_upto(records, args, upto).len() ==> (#[trigger] passing_upto(
                records,
                args,
                upto,
            )[k]) < upto,
        forall|i: usize|
            i < upto && passes_filters(records[i as int], args) ==> #[trigger] passing_upto(
                records,
                args,
                upto,
            ).contains(i),
    decreases upto,
{
    if upto > 0 {
        lemma_passing_shape(records, args, upto - 1);
        let before = passing_upto(records, args, upto - 1);
        let now = passing_upto(records, args, upto);
        assert forall|i: usize|
            i < upto && passes_filters(records[i as int], args) implies #[trigger] now.contains(
            i,
        ) by {
            if i < upto - 1 {
                assert(before.contains(i));
                let at = choose|at: int| 0 <= at < before.len() && before[at] == i;
                assert(now[at] == i);
            } else {
                assert(now[now.len() - 1] == i);
            }
        }
    }
}

/// What the filter stage lets through of a valid and complete walk in which
/// only directories contain records is such a walk again.
pub proof fn lemma_filtered_is_walk(records: Seq<RawRecord>, args: Args)
    requires
        valid_walk(records),
        complete_walk(records),
        parents_are_directories(records),
    ensures
        valid_walk(filtered(records, args)),
        complete_walk(filtered(records, args)),
{
    let n = records.len() as int;
    let passing = passing_upto(records, args, n);
    let out = filtered(records, args);
    lemma_passing_shape(records, args, n);
    assert forall|i: int| 0 <= i < out.len() implies (#[trigger] out[i]).depth == 1 || link(
        out,
        i,
    ) is Some by {
        let was = passing[i] as int;
        if records[was].depth != 1 {
            let p = link(records, was)->0;
            assert(passing.contains(p as usize));
            let j = choose|j: int| 0 <= j < passing.len() && passing[j] == p as usize;
            assert(is_parent_of(out, j, i));
        }
    }
}

/// Aggregation soundness for a scan: the records of a valid and complete
/// walk, filtered and sorted hierarchically, are a valid walk in depth-first
/// order, so that the totals of each of them are the record by itself and
/// the sum over the records that survived filtering and lie below it.
pub proof fn lemma_prepared_totals_sound(scan: Seq<RawRecord>, args: Args, root: Seq<char>, i: int)
    requires
        valid_walk(scan),
        complete_walk(scan),
        parents_are_directories(scan),
        !args.files_only,
        0 <= i < prepared(scan, args).len(),
    ensures
        valid_walk(prepared(scan, args)),
        parents_first(prepared(scan, args)),
        totals_at(aggregated(prepared(scan, args), root), prepared(scan, args)[i].path@) == plus(
            own_totals(prepared(scan, args)[i]),
            sum_where(
                prepared(scan, args),
                below_record(prepared(scan, args), i),
                prepared(scan, args).len() as int,
            ),
        ),
{
    lemma_filtered_is_walk(scan, args);
    lemma_hierarchical_result_is_walk(filtered(scan, args), sort_options_of(args));
    lemma_aggregation_sound(prepared(scan, args), root, i);
}

/// What a tree records for an entry is the totals of the entry's path, held
/// at the largest value: for a walk in depth-first order the size of the
/// entry and of all files below it, the number of directories below it, and
/// the number of files below it and itself.
pub proof fn lemma_tree_records_totals(tree: Tree, records: Seq<RawRecord>, args: Args, root: Seq<char>, k: int)
    requires
        tree.shows(records, args, root),
        valid_walk(records),
        parents_first(records),
        0 <= k < tree.tree_info@.len(),
    ensures
        ({
            let at = kept_positions(records, args)[shown_positions(records, args, root)[k] as int] as int;
            let totals = plus(
                own_totals(records[at]),
                sum_where(records, below_record(records, at), records.len() as int),
            );
            &&& 0 <= at < records.len()
            &&& tree.entries@[k] == records[at]
            &&& tree.tree_info@[k].size == Some(clamp(totals.size))
            &&& tree.tree_info@[k].dirs == Some(clamp(totals.dirs))
            &&& tree.tree_info@[k].files == Some(clamp(totals.files))
        }),
{
    let kept = kept_positions(records, args);
    let shown = shown_positions(records, args, root);
    let laid = laid_out(records, args, root);
    lemma_kept_below(records, args, records.len() as int);
    assert(picked(laid, shown)[k] == laid[shown[k] as int]);
    lemma_shown_in_range(records, args, root);
    let at = kept[shown[k] as int] as int;
    lemma_aggregation_sound(records, root, at);
}

} // verus!
