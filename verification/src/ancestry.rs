//! What it means for one record to lie below another, and the law that a
//! hierarchical order lists every record after all that it lies below.

use crate::hierarchy::{
    children_of,
    children_upto,
    forest,
    hierarchical_order,
    hierarchical_result,
    lemma_children_below,
    roots_of,
    roots_upto,
    sorted_children,
    subtree,
};
use crate::permute::{is_permutation, lemma_picked_permutes};
use vstd::seq_lib::*;
use vstd::set_lib::*;
use crate::order::{
    all_below, lemma_sorted_order_below, lemma_sorted_order_distinct,
    lemma_sorted_order_same_elements, sorted_order,
};
use crate::record::{opt_view, RawRecord};
use crate::sort::{record_keys, SortOptions};
use vstd::prelude::*;

verus! {

/// A list of records as a scan yields it: no path occurs twice, the path of a
/// containing directory is shorter than the path of what it contains, and a
/// record of depth 1 lies below no record of the list.
pub open spec fn valid_walk(records: Seq<RawRecord>) -> bool {
    &&& records.len() <= usize::MAX
    &&& forall|i: int, j: int|
        0 <= i < records.len() && 0 <= j < records.len() && i != j ==> (
        #[trigger] records[i]).path@ != (#[trigger] records[j]).path@
    &&& forall|i: int|
        0 <= i < records.len() ==> match (#[trigger] records[i]).parent {
            Some(p) => p@.len() < records[i].path@.len(),
            None => true,
        }
    &&& forall|i: int, j: int|
        0 <= i < records.len() && 0 <= j < records.len() && (#[trigger] records[i]).depth == 1
            ==> opt_view(records[i].parent) != Some((#[trigger] records[j]).path@)
}

/// Whether the record at `j` is the directory that directly contains the one at `i`.
pub open spec fn is_parent_of(records: Seq<RawRecord>, j: int, i: int) -> bool {
    0 <= j < records.len() && opt_view(records[i].parent) == Some(records[j].path@)
}

/// The position of the directory that directly contains the record at `i`,
/// if the list holds it.
pub open spec fn link(records: Seq<RawRecord>, i: int) -> Option<int> {
    if exists|j: int| is_parent_of(records, j, i) {
        Some(choose|j: int| is_parent_of(records, j, i))
    } else {
        None
    }
}

/// Whether the record at `b` lies below the record at `a`, directly or
/// through directories of the list.
pub open spec fn is_ancestor(records: Seq<RawRecord>, a: int, b: int) -> bool
    decreases records[b].path@.len(),
{
    match link(records, b) {
        Some(c) => records[c].path@.len() < records[b].path@.len() && (c == a || is_ancestor(
            records,
            a,
            c,
        )),
        None => false,
    }
}

/// What lies below a record has a longer path.
pub proof fn lemma_ancestor_is_shorter(records: Seq<RawRecord>, a: int, b: int)
    requires
        is_ancestor(records, a, b),
    ensures
        records[a].path@.len() < records[b].path@.len(),
    decreases records[b].path@.len(),
{
    let c = link(records, b)->0;
    if c != a {
        lemma_ancestor_is_shorter(records, a, c);
    }
}

/// Lying below is transitive.
pub proof fn lemma_ancestor_transitive(records: Seq<RawRecord>, a: int, b: int, c: int)
    requires
        is_ancestor(records, a, b),
        is_ancestor(records, b, c),
    ensures
        is_ancestor(records, a, c),
    decreases records[c].path@.len(),
{
    let d = link(records, c)->0;
    if d != b {
        lemma_ancestor_transitive(records, a, b, d);
    }
}

/// The records that one record lies below form a chain.
pub proof fn lemma_ancestors_chain(records: Seq<RawRecord>, a: int, b: int, c: int)
    requires
        is_ancestor(records, a, c),
        is_ancestor(records, b, c),
    ensures
        a == b || is_ancestor(records, a, b) || is_ancestor(records, b, a),
    decreases records[c].path@.len(),
{
    let d = link(records, c)->0;
    if a != d && b != d {
        lemma_ancestors_chain(records, a, b, d);
    }
}

/// In a valid walk a record lies below the record whose path is its parent path.
pub proof fn lemma_child_link(records: Seq<RawRecord>, i: int, h: int)
    requires
        valid_walk(records),
        0 <= i < records.len(),
        0 <= h < records.len(),
        opt_view(records[h].parent) == Some(records[i].path@),
    ensures
        link(records, h) == Some(i),
        is_ancestor(records, i, h),
{
    assert(is_parent_of(records, i, h));
}

/// The heads are distinct records none of which lies below another.
pub open spec fn separate(records: Seq<RawRecord>, heads: Seq<usize>) -> bool {
    forall|p: int, q: int|
        0 <= p < heads.len() && 0 <= q < heads.len() && p != q ==> (#[trigger] heads[p]) != (
        #[trigger] heads[q]) && !is_ancestor(records, heads[p] as int, heads[q] as int)
}

/// The record at `e` is one of the heads or lies below one.
pub open spec fn covered(records: Seq<RawRecord>, heads: Seq<usize>, e: usize) -> bool {
    exists|k: int|
        0 <= k < heads.len() && ((#[trigger] heads[k]) == e || is_ancestor(
            records,
            heads[k] as int,
            e as int,
        ))
}

/// No position later in `s` holds a record that an earlier position's record
/// lies below.
pub open spec fn ancestors_first(records: Seq<RawRecord>, s: Seq<usize>) -> bool {
    forall|x: int, y: int|
        0 <= x < s.len() && 0 <= y < s.len() && is_ancestor(
            records,
            (#[trigger] s[x]) as int,
            (#[trigger] s[y]) as int,
        ) ==> x < y
}

proof fn lemma_children_distinct(records: Seq<RawRecord>, parent: Seq<char>, upto: int)
    requires
        upto <= records.len() <= usize::MAX,
    ensures
        children_upto(records, parent, upto).no_duplicates(),
        forall|k: int|
            0 <= k < children_upto(records, parent, upto).len() ==> (#[trigger] children_upto(
                records,
                parent,
                upto,
            )[k]) < upto,
    decreases upto,
{
    if upto > 0 {
        lemma_children_distinct(records, parent, upto - 1);
    }
}

proof fn lemma_roots_distinct(records: Seq<RawRecord>, upto: int)
    requires
        upto <= records.len() <= usize::MAX,
    ensures
        roots_upto(records, upto).no_duplicates(),
        forall|k: int|
            0 <= k < roots_upto(records, upto).len() ==> (#[trigger] roots_upto(records, upto)[k])
                < upto && records[roots_upto(records, upto)[k] as int].depth == 1,
    decreases upto,
{
    if upto > 0 {
        lemma_roots_distinct(records, upto - 1);
    }
}

/// The sorted children of a record are separate records of the list, each
/// directly below it.
proof fn lemma_sorted_children_separate(records: Seq<RawRecord>, options: SortOptions, i: int)
    requires
        valid_walk(records),
        0 <= i < records.len(),
    ensures
        all_below(sorted_children(records, options, records[i].path@), records.len()),
        separate(records, sorted_children(records, options, records[i].path@)),
        forall|k: int|
            0 <= k < sorted_children(records, options, records[i].path@).len() ==> is_ancestor(
                records,
                i,
                (#[trigger] sorted_children(records, options, records[i].path@)[k]) as int,
            ),
{
    let keys = record_keys(records, options);
    let path = records[i].path@;
    let raw = children_of(records, path);
    let heads = sorted_children(records, options, path);
    lemma_children_below(records, path, records.len() as int);
    lemma_children_distinct(records, path, records.len() as int);
    lemma_sorted_order_below(keys, options, raw, records.len());
    lemma_sorted_order_distinct(keys, options, raw);
    assert forall|k: int| 0 <= k < heads.len() implies opt_view(
        records[(#[trigger] heads[k]) as int].parent,
    ) == Some(path) && is_ancestor(records, i, heads[k] as int) by {
        lemma_sorted_order_same_elements(keys, options, raw, heads[k]);
        lemma_child_link(records, i, heads[k] as int);
    }
    assert forall|p: int, q: int|
        0 <= p < heads.len() && 0 <= q < heads.len() && p != q implies (#[trigger] heads[p]) != (
    #[trigger] heads[q]) && !is_ancestor(records, heads[p] as int, heads[q] as int) by {
        let hp = heads[p] as int;
        let hq = heads[q] as int;
        if is_ancestor(records, hp, hq) {
            if hp != i {
                lemma_ancestor_is_shorter(records, hp, i);
            }
        }
    }
}

/// A subtree starts with its record, holds otherwise only records below it,
/// and lists no record before one that it lies below.
proof fn lemma_subtree_shape(records: Seq<RawRecord>, options: SortOptions, i: usize, levels: nat)
    requires
        valid_walk(records),
        i < records.len(),
    ensures
        subtree(records, options, i, levels).len() >= 1,
        subtree(records, options, i, levels)[0] == i,
        all_below(subtree(records, options, i, levels), records.len()),
        forall|k: int|
            1 <= k < subtree(records, options, i, levels).len() ==> is_ancestor(
                records,
                i as int,
                (#[trigger] subtree(records, options, i, levels)[k]) as int,
            ),
        ancestors_first(records, subtree(records, options, i, levels)),
        subtree(records, options, i, levels).no_duplicates(),
    decreases levels, 0nat,
{
    let s = subtree(records, options, i, levels);
    if levels == 0 {
        assert forall|x: int, y: int|
            0 <= x < s.len() && 0 <= y < s.len() && is_ancestor(
                records,
                (#[trigger] s[x]) as int,
                (#[trigger] s[y]) as int,
            ) implies x < y by {
            lemma_ancestor_is_shorter(records, s[x] as int, s[y] as int);
        }
    } else {
        let heads = sorted_children(records, options, records[i as int].path@);
        let f = forest(records, options, heads, (levels - 1) as nat);
        lemma_sorted_children_separate(records, options, i as int);
        lemma_forest_shape(records, options, heads, (levels - 1) as nat);
        assert forall|k: int| 1 <= k < s.len() implies is_ancestor(
            records,
            i as int,
            (#[trigger] s[k]) as int,
        ) by {
            let e = f[k - 1];
            let h = choose|h: int|
                0 <= h < heads.len() && ((#[trigger] heads[h]) == e || is_ancestor(
                    records,
                    heads[h] as int,
                    e as int,
                ));
            if heads[h] != e {
                lemma_ancestor_transitive(records, i as int, heads[h] as int, e as int);
            }
        }
        assert forall|x: int, y: int|
            0 <= x < s.len() && 0 <= y < s.len() && is_ancestor(
                records,
                (#[trigger] s[x]) as int,
                (#[trigger] s[y]) as int,
            ) implies x < y by {
            lemma_ancestor_is_shorter(records, s[x] as int, s[y] as int);
            if y == 0 && x > 0 {
                lemma_ancestor_is_shorter(records, i as int, s[x] as int);
            }
        }
    }
}

/// A forest of separate heads holds only the heads and what lies below
/// them, and lists no record before one that it lies below.
proof fn lemma_forest_shape(records: Seq<RawRecord>, options: SortOptions, heads: Seq<usize>, levels: nat)
    requires
        valid_walk(records),
        all_below(heads, records.len()),
        separate(records, heads),
    ensures
        all_below(forest(records, options, heads, levels), records.len()),
        forall|k: int|
            0 <= k < forest(records, options, heads, levels).len() ==> covered(
                records,
                heads,
                #[trigger] forest(records, options, heads, levels)[k],
            ),
        ancestors_first(records, forest(records, options, heads, levels)),
        forest(records, options, heads, levels).no_duplicates(),
    decreases levels, heads.len() + 1,
{
    let f = forest(records, options, heads, levels);
    if heads.len() > 0 {
        let h0 = heads[0];
        let first = subtree(records, options, h0, levels);
        let rest_heads = heads.drop_first();
        let rest = forest(records, options, rest_heads, levels);
        lemma_subtree_shape(records, options, h0, levels);
        lemma_forest_shape(records, options, rest_heads, levels);
        assert forall|x: int, y: int|
            0 <= x < f.len() && 0 <= y < f.len() && is_ancestor(
                records,
                (#[trigger] f[x]) as int,
                (#[trigger] f[y]) as int,
            ) implies x < y by {
            if x >= first.len() && y < first.len() {
                // `f[x]` is under a later head, `f[y]` under the first one.
                let ex = rest[x - first.len()];
                let ey = first[y];
                let h = choose|h: int|
                    0 <= h < rest_heads.len() && ((#[trigger] rest_heads[h]) == ex || is_ancestor(
                        records,
                        rest_heads[h] as int,
                        ex as int,
                    ));
                let hx = rest_heads[h];
                if hx != ex {
                    lemma_ancestor_transitive(records, hx as int, ex as int, ey as int);
                }
                if y != 0 {
                    lemma_ancestors_chain(records, hx as int, h0 as int, ey as int);
                }
            }
        }
        assert forall|x: int, y: int| 0 <= x < f.len() && 0 <= y < f.len() && x != y implies f[x]
            != f[y] by {
            if (x < first.len()) != (y < first.len()) {
                // One lies under the first head, the other under a later one.
                let (under_first, under_rest) = if x < first.len() {
                    (x, y)
                } else {
                    (y, x)
                };
                let e1 = first[under_first];
                let e2 = rest[under_rest - first.len()];
                if e1 == e2 {
                    let h = choose|h: int|
                        0 <= h < rest_heads.len() && ((#[trigger] rest_heads[h]) == e2
                            || is_ancestor(records, rest_heads[h] as int, e2 as int));
                    let hx = rest_heads[h];
                    if under_first > 0 && hx != e2 {
                        lemma_ancestors_chain(records, hx as int, h0 as int, e1 as int);
                    }
                }
            }
        }
    }
}

/// Every record that does not lie directly below the scan root has its
/// directory in the list.
pub open spec fn complete_walk(records: Seq<RawRecord>) -> bool {
    forall|i: int|
        0 <= i < records.len() ==> (#[trigger] records[i]).depth == 1 || link(records, i) is Some
}

/// Number of records among the first `upto` whose path is shorter than `bound`.
spec fn shorter_paths(records: Seq<RawRecord>, bound: nat, upto: int) -> nat
    decreases upto,
{
    if upto <= 0 {
        0
    } else {
        shorter_paths(records, bound, upto - 1) + if records[upto - 1].path@.len() < bound {
            1nat
        } else {
            0nat
        }
    }
}

proof fn lemma_shorter_paths_grow(records: Seq<RawRecord>, low: nat, high: nat, upto: int, at: int)
    requires
        low <= high,
        0 <= upto,
    ensures
        shorter_paths(records, low, upto) <= shorter_paths(records, high, upto) <= upto,
        0 <= at < upto && low <= records[at].path@.len() < high ==> shorter_paths(
            records,
            low,
            upto,
        ) < shorter_paths(records, high, upto),
    decreases upto,
{
    if upto > 0 {
        lemma_shorter_paths_grow(records, low, high, upto - 1, at);
    }
}

/// The record directly below the record at `r` through which the record at
/// `x` lies below it.
spec fn child_towards(records: Seq<RawRecord>, r: int, x: int) -> int
    decreases records[x].path@.len(),
{
    match link(records, x) {
        Some(c) => if records[c].path@.len() < records[x].path@.len() && c != r {
            child_towards(records, r, c)
        } else {
            x
        },
        None => x,
    }
}

proof fn lemma_child_towards(records: Seq<RawRecord>, r: int, x: int)
    requires
        valid_walk(records),
        0 <= r < records.len(),
        0 <= x < records.len(),
        is_ancestor(records, r, x),
    ensures
        0 <= child_towards(records, r, x) < records.len(),
        opt_view(records[child_towards(records, r, x)].parent) == Some(records[r].path@),
        child_towards(records, r, x) == x || is_ancestor(
            records,
            child_towards(records, r, x),
            x,
        ),
        records[r].path@.len() < records[child_towards(records, r, x)].path@.len()
            <= records[x].path@.len(),
    decreases records[x].path@.len(),
{
    let c = link(records, x)->0;
    if c != r {
        lemma_child_towards(records, r, c);
    }
}

proof fn lemma_forest_holds_subtrees(
    records: Seq<RawRecord>,
    options: SortOptions,
    heads: Seq<usize>,
    levels: nat,
    k: int,
    e: usize,
)
    requires
        0 <= k < heads.len(),
        subtree(records, options, heads[k], levels).contains(e),
    ensures
        forest(records, options, heads, levels).contains(e),
    decreases heads.len(),
{
    let first = subtree(records, options, heads[0], levels);
    let rest = forest(records, options, heads.drop_first(), levels);
    let f = forest(records, options, heads, levels);
    if k == 0 {
        let at = choose|at: int| 0 <= at < first.len() && first[at] == e;
        assert(f[at] == e);
    } else {
        lemma_forest_holds_subtrees(records, options, heads.drop_first(), levels, k - 1, e);
        let at = choose|at: int| 0 <= at < rest.len() && rest[at] == e;
        assert(f[first.len() + at] == e);
    }
}

/// With levels enough for the steps between them, the subtree of a record
/// holds every record that lies below it.
proof fn lemma_subtree_holds_below(
    records: Seq<RawRecord>,
    options: SortOptions,
    r: usize,
    x: usize,
    levels: nat,
)
    requires
        valid_walk(records),
        r < records.len(),
        x < records.len(),
        r == x || is_ancestor(records, r as int, x as int),
        shorter_paths(records, records[x as int].path@.len(), records.len() as int) <= levels
            + shorter_paths(records, records[r as int].path@.len(), records.len() as int),
    ensures
        subtree(records, options, r, levels).contains(x),
    decreases levels,
{
    let s = subtree(records, options, r, levels);
    let n = records.len() as int;
    if r == x {
        assert(s[0] == x);
    } else {
        lemma_child_towards(records, r as int, x as int);
        let t = child_towards(records, r as int, x as int);
        // The record itself is one of those with a path shorter than the
        // child's, and than the path of what lies below it.
        lemma_shorter_paths_grow(
            records,
            records[r as int].path@.len(),
            records[t].path@.len(),
            n,
            r as int,
        );
        lemma_shorter_paths_grow(
            records,
            records[r as int].path@.len(),
            records[x as int].path@.len(),
            n,
            r as int,
        );
        let keys = record_keys(records, options);
        let path = records[r as int].path@;
        let raw = children_of(records, path);
        let heads = sorted_children(records, options, path);
        lemma_children_hold(records, path, records.len() as int, t);
        lemma_sorted_order_same_elements(keys, options, raw, t as usize);
        let k = choose|k: int| 0 <= k < heads.len() && heads[k] == t as usize;
        lemma_subtree_holds_below(records, options, t as usize, x, (levels - 1) as nat);
        lemma_forest_holds_subtrees(records, options, heads, (levels - 1) as nat, k, x);
        let f = forest(records, options, heads, (levels - 1) as nat);
        let at = choose|at: int| 0 <= at < f.len() && f[at] == x;
        assert(s[at + 1] == x);
    }
}

proof fn lemma_children_hold(records: Seq<RawRecord>, parent: Seq<char>, upto: int, t: int)
    requires
        0 <= t < upto <= records.len() <= usize::MAX,
        opt_view(records[t].parent) == Some(parent),
    ensures
        children_upto(records, parent, upto).contains(t as usize),
    decreases upto,
{
    let now = children_upto(records, parent, upto);
    if t == upto - 1 {
        assert(now[now.len() - 1] == t as usize);
    } else {
        lemma_children_hold(records, parent, upto - 1, t);
        let before = children_upto(records, parent, upto - 1);
        let at = choose|at: int| 0 <= at < before.len() && before[at] == t as usize;
        assert(now[at] == t as usize);
    }
}

proof fn lemma_roots_hold(records: Seq<RawRecord>, upto: int, t: int)
    requires
        0 <= t < upto <= records.len() <= usize::MAX,
        records[t].depth == 1,
    ensures
        roots_upto(records, upto).contains(t as usize),
    decreases upto,
{
    let now = roots_upto(records, upto);
    if t == upto - 1 {
        assert(now[now.len() - 1] == t as usize);
    } else {
        lemma_roots_hold(records, upto - 1, t);
        let before = roots_upto(records, upto - 1);
        let at = choose|at: int| 0 <= at < before.len() && before[at] == t as usize;
        assert(now[at] == t as usize);
    }
}

/// The record without a directory in the list that the record at `x` lies
/// below, or is.
spec fn top_of(records: Seq<RawRecord>, x: int) -> int
    decreases records[x].path@.len(),
{
    match link(records, x) {
        Some(c) => if records[c].path@.len() < records[x].path@.len() {
            top_of(records, c)
        } else {
            x
        },
        None => x,
    }
}

proof fn lemma_top_of(records: Seq<RawRecord>, x: int)
    requires
        valid_walk(records),
        0 <= x < records.len(),
    ensures
        0 <= top_of(records, x) < records.len(),
        link(records, top_of(records, x)) is None,
        top_of(records, x) == x || is_ancestor(records, top_of(records, x), x),
    decreases records[x].path@.len(),
{
    if link(records, x) is Some {
        let c = link(records, x)->0;
        lemma_top_of(records, c);
    }
}

/// Hierarchical sort rearranges: the hierarchical order of a valid and
/// complete walk holds every record, and none twice, so that the sorted
/// list holds the same records as the list it was made from.
pub proof fn lemma_hierarchical_sort_rearranges(records: Seq<RawRecord>, options: SortOptions)
    requires
        valid_walk(records),
        complete_walk(records),
    ensures
        is_permutation(hierarchical_order(records, options), records.len()),
        hierarchical_result(records, options).to_multiset() =~= records.to_multiset(),
{
    lemma_hierarchical_order_permutes(records, options);
    let order = hierarchical_order(records, options);
    let n = records.len();
    let ints = Seq::new(order.len(), |i: int| order[i] as int);
    ints.unique_seq_to_set();
    lemma_int_range(0, n as int);
    let range = set_int_range(0, n as int);
    assert(ints.to_set() =~= range) by {
        assert forall|v: int| range.contains(v) implies ints.to_set().contains(v) by {
            assert(order.contains(v as usize));
            let at = choose|at: int| 0 <= at < order.len() && order[at] == v as usize;
            assert(ints[at] == v);
        }
    }
    lemma_picked_permutes(records, order);
}

/// The hierarchical order of a valid and complete walk names every record,
/// and none twice.
pub proof fn lemma_hierarchical_order_permutes(records: Seq<RawRecord>, options: SortOptions)
    requires
        valid_walk(records),
        complete_walk(records),
    ensures
        hierarchical_order(records, options).no_duplicates(),
        all_below(hierarchical_order(records, options), records.len()),
        forall|i: usize|
            i < records.len() ==> #[trigger] hierarchical_order(records, options).contains(i),
{
    let n = records.len();
    let keys = record_keys(records, options);
    let raw = roots_of(records);
    let heads = sorted_order(keys, options, raw);
    lemma_roots_distinct(records, n as int);
    lemma_sorted_order_below(keys, options, raw, n);
    lemma_roots_separate(records, options);
    lemma_forest_shape(records, options, heads, n);
    let out = hierarchical_order(records, options);
    assert forall|at: usize| at < n implies #[trigger] out.contains(at) by {
        let i = at as int;
        lemma_top_of(records, i);
        let t = top_of(records, i);
        lemma_roots_hold(records, n as int, t);
        lemma_sorted_order_same_elements(keys, options, raw, t as usize);
        let k = choose|k: int| 0 <= k < heads.len() && heads[k] == t as usize;
        lemma_shorter_paths_grow(records, 0, records[i].path@.len(), n as int, i);
        lemma_subtree_holds_below(records, options, t as usize, i as usize, n);
        lemma_forest_holds_subtrees(records, options, heads, n, k, i as usize);
    }
}

/// The sorted records of depth 1 are separate.
proof fn lemma_roots_separate(records: Seq<RawRecord>, options: SortOptions)
    requires
        valid_walk(records),
    ensures
        separate(
            records,
            sorted_order(record_keys(records, options), options, roots_of(records)),
        ),
{
    let keys = record_keys(records, options);
    let raw = roots_of(records);
    let heads = sorted_order(keys, options, raw);
    lemma_roots_distinct(records, records.len() as int);
    lemma_sorted_order_distinct(keys, options, raw);
    assert forall|p: int, q: int|
        0 <= p < heads.len() && 0 <= q < heads.len() && p != q implies (#[trigger] heads[p]) != (
    #[trigger] heads[q]) && !is_ancestor(records, heads[p] as int, heads[q] as int) by {
        lemma_sorted_order_same_elements(keys, options, raw, heads[q]);
    }
}

/// Hierarchical sort preserves ancestry: in the hierarchical order of a
/// valid walk, whatever the options, a record stands before every record
/// that lies below it.
pub proof fn lemma_ancestors_come_first(
    records: Seq<RawRecord>,
    options: SortOptions,
    x: int,
    y: int,
)
    requires
        valid_walk(records),
        0 <= x < hierarchical_order(records, options).len(),
        0 <= y < hierarchical_order(records, options).len(),
        is_ancestor(
            records,
            hierarchical_order(records, options)[x] as int,
            hierarchical_order(records, options)[y] as int,
        ),
    ensures
        x < y,
{
    let keys = record_keys(records, options);
    let raw = roots_of(records);
    let heads = sorted_order(keys, options, raw);
    lemma_roots_distinct(records, records.len() as int);
    lemma_sorted_order_below(keys, options, raw, records.len());
    lemma_roots_separate(records, options);
    lemma_forest_shape(records, options, heads, records.len());
}

} // verus!
