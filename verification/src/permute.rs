//! Rearranging a vector in place along a permutation of its positions.

use crate::order::all_below;
use vstd::prelude::*;
use vstd::seq_lib::*;
use vstd::set_lib::*;

verus! {

/// `order` holds each position below `n` exactly once.
pub open spec fn is_permutation(order: Seq<usize>, n: nat) -> bool {
    &&& order.len() == n
    &&& all_below(order, n)
    &&& order.no_duplicates()
}

/// The elements of `source` in the order that `order` names them.
pub open spec fn picked<T>(source: Seq<T>, order: Seq<usize>) -> Seq<T> {
    Seq::new(order.len(), |i: int| source[order[i] as int])
}

/// A permutation names every position.
pub proof fn lemma_permutation_onto(order: Seq<usize>, n: nat, v: usize)
    requires
        is_permutation(order, n),
        v < n,
    ensures
        order.contains(v),
{
    let ints = Seq::new(n, |i: int| order[i] as int);
    ints.unique_seq_to_set();
    lemma_int_range(0, n as int);
    let range = set_int_range(0, n as int);
    lemma_subset_equality(ints.to_set(), range);
    assert(ints.to_set().contains(v as int));
}

/// Picking along a permutation rearranges: nothing is lost or repeated.
pub proof fn lemma_picked_permutes<T>(source: Seq<T>, order: Seq<usize>)
    requires
        is_permutation(order, source.len()),
        source.len() <= usize::MAX,
    ensures
        picked(source, order).to_multiset() =~= source.to_multiset(),
    decreases source.len(),
{
    broadcast use vstd::multiset::group_multiset_axioms;

    let n = source.len();
    let out = picked(source, order);
    if n == 0 {
        assert(out =~= source);
    } else {
        // Take the last source element out of both sides.
        let last = (n - 1) as usize;
        lemma_permutation_onto(order, n, last);
        let at = choose|i: int| 0 <= i < order.len() && order[i] == last;
        let rest_order = order.remove(at);
        let rest_source = source.drop_last();
        lemma_picked_permutes(rest_source, rest_order);
        let rest_out = picked(rest_source, rest_order);
        assert(out.remove(at) =~= rest_out);
        let x = source[n - 1];
        to_multiset_remove(out, at);
        to_multiset_remove(source, n - 1);
        to_multiset_contains(out, x);
        to_multiset_contains(source, x);
        assert forall|y: T| out.to_multiset().count(y) == source.to_multiset().count(y) by {
            assert(out.to_multiset().remove(x).count(y) == source.to_multiset().remove(x).count(y));
        }
    }
}

/// Number of positions not yet settled.
pub open spec fn pending(visited: Seq<bool>) -> nat
    decreases visited.len(),
{
    if visited.len() == 0 {
        0
    } else {
        pending(visited.drop_last()) + if visited.last() {
            0nat
        } else {
            1nat
        }
    }
}

/// Settling one pending position leaves one fewer.
pub proof fn lemma_pending_settle(visited: Seq<bool>, i: int)
    requires
        0 <= i < visited.len(),
        !visited[i],
    ensures
        pending(visited.update(i, true)) + 1 == pending(visited),
    decreases visited.len(),
{
    let after = visited.update(i, true);
    if i == visited.len() - 1 {
        assert(after.drop_last() =~= visited.drop_last());
    } else {
        assert(after.drop_last() =~= visited.drop_last().update(i, true));
        lemma_pending_settle(visited.drop_last(), i);
    }
}

/// `<[T]>::swap` of std: the two positions exchange their elements and
/// nothing else moves.
#[verifier::external_body]
fn swap_items<T>(items: &mut Vec<T>, a: usize, b: usize)
    requires
        a < old(items)@.len(),
        b < old(items)@.len(),
    ensures
        final(items)@ == old(items)@.update(a as int, old(items)@[b as int]).update(
            b as int,
            old(items)@[a as int],
        ),
{
    items.swap(a, b);
}

/// Rearranges `entries` so that position `i` holds what stood at `order[i]`.
/// Each cycle of the permutation is followed once, by swaps, so that no
/// element is copied.
pub fn apply_permutation<T>(entries: &mut Vec<T>, order: &Vec<usize>)
    requires
        is_permutation(order@, old(entries)@.len()),
    ensures
        final(entries)@ == picked(old(entries)@, order@),
{
    let n: usize = entries.len();
    let ghost source = entries@;
    // `from[v]` is the position that receives what stood at `v`.
    let ghost from = Seq::new(n as nat, |v: int| choose|i: int| 0 <= i < n && order@[i] == v);
    proof {
        assert forall|v: int| 0 <= v < n implies 0 <= #[trigger] from[v] < n && order@[from[v]]
            == v by {
            lemma_permutation_onto(order@, n as nat, v as usize);
        }
    }
    let mut visited: Vec<bool> = Vec::new();
    let mut k: usize = 0;
    while k < n
        invariant
            k <= n,
            visited@.len() == k,
            forall|i: int| 0 <= i < k ==> !visited@[i],
        decreases n - k,
    {
        visited.push(false);
        k += 1;
    }
    let mut start: usize = 0;
    while start < n
        invariant
            start <= n,
            n == source.len(),
            entries@.len() == n,
            visited@.len() == n,
            from.len() == n,
            is_permutation(order@, n as nat),
            forall|v: int| 0 <= v < n ==> 0 <= #[trigger] from[v] < n && order@[from[v]] == v,
            forall|i: int| 0 <= i < n && visited@[i] ==> entries@[i] == source[order@[i] as int],
            forall|i: int| 0 <= i < n && !visited@[i] ==> entries@[i] == source[i],
            forall|v: int| 0 <= v < n && visited@[v] ==> visited@[#[trigger] from[v]],
            forall|i: int| 0 <= i < start ==> visited@[i],
        decreases n - start,
    {
        if !visited[start] {
            let mut current: usize = start;
            let mut next: usize = order[current];
            while next != start
                invariant
                    start < n,
                    current < n,
                    next < n,
                    n == source.len(),
                    entries@.len() == n,
                    visited@.len() == n,
                    from.len() == n,
                    is_permutation(order@, n as nat),
                    forall|v: int|
                        0 <= v < n ==> 0 <= #[trigger] from[v] < n && order@[from[v]] == v,
                    forall|i: int|
                        0 <= i < n && visited@[i] ==> entries@[i] == source[order@[i] as int],
                    forall|i: int|
                        0 <= i < n && !visited@[i] && i != current ==> entries@[i] == source[i],
                    entries@[current as int] == source[start as int],
                    !visited@[current as int],
                    forall|v: int|
                        0 <= v < n && visited@[v] && v != start ==> visited@[#[trigger] from[v]],
                    current != start ==> visited@[start as int] && visited@[from[current as int]],
                    next == order@[current as int],
                    forall|i: int| 0 <= i < start ==> visited@[i],
                decreases pending(visited@),
            {
                proof {
                    // Only `current` is sent to `next`, and it is not settled.
                    assert(from[next as int] == current);
                    lemma_pending_settle(visited@, current as int);
                }
                swap_items(entries, current, next);
                visited.set(current, true);
                current = next;
                next = order[current];
            }
            visited.set(current, true);
        }
        start += 1;
    }
    assert forall|i: int| 0 <= i < n implies entries@[i] == picked(source, order@)[i] by {
        assert(visited@[i]);
    }
}

} // verus!
