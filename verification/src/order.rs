//! Stable merge sort of record positions by their sort keys, and what holds of
//! the order it yields.

use crate::sort::{
    category_rank,
    entry_precedes,
    lemma_precedes_total,
    lemma_precedes_transitive,
    precedes,
    EntryCache,
    SortKey,
    SortOptions,
};
use vstd::prelude::*;
use vstd::seq_lib::*;

verus! {

/// The keys that a list of caches stands for.
pub open spec fn key_views(keys: Seq<EntryCache>) -> Seq<SortKey> {
    Seq::new(keys.len(), |i: int| keys[i]@)
}

/// Every position in `s` is below `n`.
pub open spec fn all_below(s: Seq<usize>, n: nat) -> bool {
    forall|i: int| 0 <= i < s.len() ==> #[trigger] s[i] < n
}

/// The positions `0, 1, .., n - 1`.
pub open spec fn identity(n: nat) -> Seq<usize> {
    Seq::new(n, |i: int| i as usize)
}

/// Two sorted runs merged: the head of `a` goes first unless the head of `b`
/// must precede it, so equal records keep the order they came in.
pub open spec fn merged(keys: Seq<SortKey>, options: SortOptions, a: Seq<usize>, b: Seq<usize>) -> Seq<
    usize,
>
    decreases a.len() + b.len(),
{
    if a.len() == 0 {
        b
    } else if b.len() == 0 {
        a
    } else if precedes(keys[a[0] as int], keys[b[0] as int], options) {
        seq![a[0]] + merged(keys, options, a.drop_first(), b)
    } else {
        seq![b[0]] + merged(keys, options, a, b.drop_first())
    }
}

/// The positions in `s` in sorted order: each half sorted, then the two merged.
pub open spec fn sorted_order(keys: Seq<SortKey>, options: SortOptions, s: Seq<usize>) -> Seq<usize>
    decreases s.len(),
{
    if s.len() <= 1 {
        s
    } else {
        let mid = (s.len() / 2) as int;
        merged(
            keys,
            options,
            sorted_order(keys, options, s.take(mid)),
            sorted_order(keys, options, s.skip(mid)),
        )
    }
}

/// Merging keeps every position, each as often as the two runs hold it.
pub proof fn lemma_merged_permutes(keys: Seq<SortKey>, options: SortOptions, a: Seq<usize>, b: Seq<usize>)
    ensures
        merged(keys, options, a, b).to_multiset() =~= a.to_multiset().add(b.to_multiset()),
        merged(keys, options, a, b).len() == a.len() + b.len(),
    decreases a.len() + b.len(),
{
    broadcast use vstd::seq_lib::group_to_multiset_ensures;

    if a.len() > 0 && b.len() > 0 {
        if precedes(keys[a[0] as int], keys[b[0] as int], options) {
            let rest = merged(keys, options, a.drop_first(), b);
            lemma_merged_permutes(keys, options, a.drop_first(), b);
            lemma_multiset_commutative(seq![a[0]], rest);
            lemma_multiset_commutative(seq![a[0]], a.drop_first());
            assert(seq![a[0]] + a.drop_first() =~= a);
        } else {
            let rest = merged(keys, options, a, b.drop_first());
            lemma_merged_permutes(keys, options, a, b.drop_first());
            lemma_multiset_commutative(seq![b[0]], rest);
            lemma_multiset_commutative(seq![b[0]], b.drop_first());
            assert(seq![b[0]] + b.drop_first() =~= b);
        }
    }
}

/// Sorting rearranges: the sorted order holds every position as often as the
/// list it was made from.
pub proof fn lemma_sorted_order_permutes(keys: Seq<SortKey>, options: SortOptions, s: Seq<usize>)
    ensures
        sorted_order(keys, options, s).to_multiset() =~= s.to_multiset(),
        sorted_order(keys, options, s).len() == s.len(),
    decreases s.len(),
{
    if s.len() > 1 {
        let mid = (s.len() / 2) as int;
        let left = sorted_order(keys, options, s.take(mid));
        let right = sorted_order(keys, options, s.skip(mid));
        lemma_sorted_order_permutes(keys, options, s.take(mid));
        lemma_sorted_order_permutes(keys, options, s.skip(mid));
        lemma_merged_permutes(keys, options, left, right);
        lemma_multiset_commutative(s.take(mid), s.skip(mid));
        assert(s.take(mid) + s.skip(mid) =~= s);
    }
}

/// Every position of the sorted order is one of the list, and the other way round.
pub proof fn lemma_sorted_order_same_elements(
    keys: Seq<SortKey>,
    options: SortOptions,
    s: Seq<usize>,
    x: usize,
)
    ensures
        sorted_order(keys, options, s).contains(x) <==> s.contains(x),
{
    lemma_sorted_order_permutes(keys, options, s);
    to_multiset_contains(s, x);
    to_multiset_contains(sorted_order(keys, options, s), x);
}

/// A sorted order of positions below `n` holds only positions below `n`.
pub proof fn lemma_sorted_order_below(keys: Seq<SortKey>, options: SortOptions, s: Seq<usize>, n: nat)
    requires
        all_below(s, n),
    ensures
        all_below(sorted_order(keys, options, s), n),
{
    let out = sorted_order(keys, options, s);
    assert forall|i: int| 0 <= i < out.len() implies #[trigger] out[i] < n by {
        lemma_sorted_order_same_elements(keys, options, s, out[i]);
    }
}

/// A list of distinct positions stays one of distinct positions when sorted.
pub proof fn lemma_sorted_order_distinct(keys: Seq<SortKey>, options: SortOptions, s: Seq<usize>)
    requires
        s.no_duplicates(),
    ensures
        sorted_order(keys, options, s).no_duplicates(),
{
    lemma_sorted_order_permutes(keys, options, s);
    s.lemma_multiset_has_no_duplicates();
    sorted_order(keys, options, s).lemma_multiset_has_no_duplicates_conv();
}

/// Of any two keys, one may stand before the other.
pub open spec fn total_on(keys: Seq<SortKey>, options: SortOptions) -> bool {
    forall|i: int, j: int|
        0 <= i < keys.len() && 0 <= j < keys.len() ==> precedes(
            #[trigger] keys[i],
            #[trigger] keys[j],
            options,
        ) || precedes(keys[j], keys[i], options)
}

/// Whatever may stand before a key that may stand before a third may stand
/// before the third.
pub open spec fn transitive_on(keys: Seq<SortKey>, options: SortOptions) -> bool {
    forall|i: int, j: int, k: int|
        0 <= i < keys.len() && 0 <= j < keys.len() && 0 <= k < keys.len() && precedes(
            #[trigger] keys[i],
            #[trigger] keys[j],
            options,
        ) && precedes(keys[j], #[trigger] keys[k], options) ==> precedes(keys[i], keys[k], options)
}

/// Each position of `s` may stand directly before the next.
pub open spec fn ordered(keys: Seq<SortKey>, options: SortOptions, s: Seq<usize>) -> bool {
    forall|i: int|
        0 <= i && i + 1 < s.len() ==> precedes(
            keys[#[trigger] s[i] as int],
            keys[s[i + 1] as int],
            options,
        )
}

/// Each position of `s` may stand before every later one.
pub open spec fn sorted(keys: Seq<SortKey>, options: SortOptions, s: Seq<usize>) -> bool {
    forall|i: int, j: int|
        0 <= i < j < s.len() ==> precedes(
            keys[#[trigger] s[i] as int],
            keys[#[trigger] s[j] as int],
            options,
        )
}

proof fn lemma_merged_head(keys: Seq<SortKey>, options: SortOptions, a: Seq<usize>, b: Seq<usize>)
    requires
        a.len() + b.len() > 0,
    ensures
        merged(keys, options, a, b).len() > 0,
        (a.len() > 0 && merged(keys, options, a, b)[0] == a[0]) || (b.len() > 0 && merged(
            keys,
            options,
            a,
            b,
        )[0] == b[0]),
{
}

/// Merging two ordered runs gives an ordered run, where the order is total.
pub proof fn lemma_merged_ordered(keys: Seq<SortKey>, options: SortOptions, a: Seq<usize>, b: Seq<usize>)
    requires
        total_on(keys, options),
        all_below(a, keys.len()),
        all_below(b, keys.len()),
        ordered(keys, options, a),
        ordered(keys, options, b),
    ensures
        ordered(keys, options, merged(keys, options, a, b)),
    decreases a.len() + b.len(),
{
    if a.len() == 0 || b.len() == 0 {
    } else if precedes(keys[a[0] as int], keys[b[0] as int], options) {
        let tail = a.drop_first();
        let rest = merged(keys, options, tail, b);
        assert(ordered(keys, options, tail)) by {
            assert forall|i: int| 0 <= i && i + 1 < tail.len() implies precedes(
                keys[#[trigger] tail[i] as int],
                keys[tail[i + 1] as int],
                options,
            ) by {
                assert(tail[i] == a[i + 1]);
            }
        }
        lemma_merged_ordered(keys, options, tail, b);
        lemma_merged_head(keys, options, tail, b);
        let out = seq![a[0]] + rest;
        assert forall|i: int| 0 <= i && i + 1 < out.len() implies precedes(
            keys[#[trigger] out[i] as int],
            keys[out[i + 1] as int],
            options,
        ) by {
            if i == 0 {
                if tail.len() > 0 && rest[0] == tail[0] {
                    assert(tail[0] == a[1]);
                    assert(precedes(keys[a[0] as int], keys[a[0int + 1] as int], options));
                }
            } else {
                assert(out[i] == rest[i - 1]);
                assert(out[i + 1] == rest[i - 1 + 1]);
            }
        }
    } else {
        let tail = b.drop_first();
        let rest = merged(keys, options, a, tail);
        assert(ordered(keys, options, tail)) by {
            assert forall|i: int| 0 <= i && i + 1 < tail.len() implies precedes(
                keys[#[trigger] tail[i] as int],
                keys[tail[i + 1] as int],
                options,
            ) by {
                assert(tail[i] == b[i + 1]);
            }
        }
        lemma_merged_ordered(keys, options, a, tail);
        lemma_merged_head(keys, options, a, tail);
        assert(precedes(keys[b[0] as int], keys[a[0] as int], options));
        let out = seq![b[0]] + rest;
        assert forall|i: int| 0 <= i && i + 1 < out.len() implies precedes(
            keys[#[trigger] out[i] as int],
            keys[out[i + 1] as int],
            options,
        ) by {
            if i == 0 {
                if tail.len() > 0 && rest[0] == tail[0] {
                    assert(tail[0] == b[1]);
                    assert(precedes(keys[b[0] as int], keys[b[0int + 1] as int], options));
                }
            } else {
                assert(out[i] == rest[i - 1]);
                assert(out[i + 1] == rest[i - 1 + 1]);
            }
        }
    }
}

/// Where the order is total on the keys, the sorted order is ordered: no
/// position stands directly before one that had to precede it.
pub proof fn lemma_sorted_order_ordered(keys: Seq<SortKey>, options: SortOptions, s: Seq<usize>)
    requires
        total_on(keys, options),
        all_below(s, keys.len()),
    ensures
        ordered(keys, options, sorted_order(keys, options, s)),
    decreases s.len(),
{
    if s.len() > 1 {
        let mid = (s.len() / 2) as int;
        let left = s.take(mid);
        let right = s.skip(mid);
        lemma_sorted_order_ordered(keys, options, left);
        lemma_sorted_order_ordered(keys, options, right);
        lemma_sorted_order_below(keys, options, left, keys.len());
        lemma_sorted_order_below(keys, options, right, keys.len());
        lemma_merged_ordered(
            keys,
            options,
            sorted_order(keys, options, left),
            sorted_order(keys, options, right),
        );
    }
}

/// Where the order is also transitive, an ordered list is sorted throughout.
pub proof fn lemma_ordered_is_sorted(keys: Seq<SortKey>, options: SortOptions, s: Seq<usize>)
    requires
        transitive_on(keys, options),
        all_below(s, keys.len()),
        ordered(keys, options, s),
    ensures
        sorted(keys, options, s),
{
    assert forall|i: int, j: int| 0 <= i < j < s.len() implies precedes(
        keys[#[trigger] s[i] as int],
        keys[#[trigger] s[j] as int],
        options,
    ) by {
        lemma_ordered_reaches(keys, options, s, i, j);
    }
}

proof fn lemma_ordered_reaches(keys: Seq<SortKey>, options: SortOptions, s: Seq<usize>, i: int, j: int)
    requires
        transitive_on(keys, options),
        all_below(s, keys.len()),
        ordered(keys, options, s),
        0 <= i < j < s.len(),
    ensures
        precedes(keys[s[i] as int], keys[s[j] as int], options),
    decreases j - i,
{
    if j > i + 1 {
        lemma_ordered_reaches(keys, options, s, i, j - 1);
    }
}

/// Without natural order the order is total on any keys, so every sorted order
/// is ordered.
pub proof fn lemma_total_without_natural(keys: Seq<SortKey>, options: SortOptions)
    requires
        !options.natural_sort,
    ensures
        total_on(keys, options),
{
    assert forall|i: int, j: int| 0 <= i < keys.len() && 0 <= j < keys.len() implies precedes(
        #[trigger] keys[i],
        #[trigger] keys[j],
        options,
    ) || precedes(keys[j], keys[i], options) by {
        lemma_precedes_total(keys[i], keys[j], options);
    }
}

/// Without natural order the order is transitive on any keys.
pub proof fn lemma_transitive_without_natural(keys: Seq<SortKey>, options: SortOptions)
    requires
        !options.natural_sort,
    ensures
        transitive_on(keys, options),
{
    assert forall|i: int, j: int, k: int|
        0 <= i < keys.len() && 0 <= j < keys.len() && 0 <= k < keys.len() && precedes(
            #[trigger] keys[i],
            #[trigger] keys[j],
            options,
        ) && precedes(keys[j], #[trigger] keys[k], options) implies precedes(
        keys[i],
        keys[k],
        options,
    ) by {
        lemma_precedes_transitive(keys[i], keys[j], keys[k], options);
    }
}

/// Without natural order a sorted order is sorted throughout: every
/// position may stand before every later one.
pub proof fn lemma_sorted_order_sorted(keys: Seq<SortKey>, options: SortOptions, s: Seq<usize>)
    requires
        !options.natural_sort,
        all_below(s, keys.len()),
    ensures
        sorted(keys, options, sorted_order(keys, options, s)),
{
    lemma_total_without_natural(keys, options);
    lemma_transitive_without_natural(keys, options);
    lemma_sorted_order_ordered(keys, options, s);
    lemma_sorted_order_below(keys, options, s, keys.len());
    lemma_ordered_is_sorted(keys, options, sorted_order(keys, options, s));
}

/// The category rank of the record at position `i`.
pub open spec fn rank_at(keys: Seq<SortKey>, i: usize) -> nat {
    category_rank(keys[i as int].is_dotfile, keys[i as int].is_dir)
}

/// Category precedence: in an ordered list made with `dotfiles_first`, the
/// records stand by category rank, hidden directories first, then
/// directories, then hidden files, then files, whether or not
/// `directories_first` is set; with `reverse` the ranks run the other way.
pub proof fn lemma_categories_in_rank_order(
    keys: Seq<SortKey>,
    options: SortOptions,
    s: Seq<usize>,
    i: int,
    j: int,
)
    requires
        options.dotfiles_first,
        all_below(s, keys.len()),
        ordered(keys, options, s),
        0 <= i <= j < s.len(),
    ensures
        !options.reverse ==> rank_at(keys, s[i]) <= rank_at(keys, s[j]),
        options.reverse ==> rank_at(keys, s[i]) >= rank_at(keys, s[j]),
    decreases j - i,
{
    if i < j {
        lemma_categories_in_rank_order(keys, options, s, i, j - 1);
    }
}

/// Merges two sorted runs of positions.
fn merge(keys: &Vec<EntryCache>, options: &SortOptions, a: &Vec<usize>, b: &Vec<usize>) -> (out: Vec<
    usize,
>)
    requires
        all_below(a@, keys@.len()),
        all_below(b@, keys@.len()),
    ensures
        out@ == merged(key_views(keys@), *options, a@, b@),
{
    let ghost views = key_views(keys@);
    let mut out: Vec<usize> = Vec::new();
    let mut i: usize = 0;
    let mut j: usize = 0;
    assert(a@.skip(0) =~= a@ && b@.skip(0) =~= b@);
    while i < a.len() || j < b.len()
        invariant
            i <= a@.len(),
            j <= b@.len(),
            views == key_views(keys@),
            all_below(a@, keys@.len()),
            all_below(b@, keys@.len()),
            out@ + merged(views, *options, a@.skip(i as int), b@.skip(j as int)) == merged(
                views,
                *options,
                a@,
                b@,
            ),
        decreases (a@.len() - i) + (b@.len() - j),
    {
        let ghost ra = a@.skip(i as int);
        let ghost rb = b@.skip(j as int);
        let take_left: bool = if i == a.len() {
            false
        } else if j == b.len() {
            true
        } else {
            entry_precedes(&keys[a[i]], &keys[b[j]], options)
        };
        proof {
            if i < a@.len() {
                assert(ra.drop_first() =~= a@.skip(i + 1));
            }
            if j < b@.len() {
                assert(rb.drop_first() =~= b@.skip(j + 1));
            }
            if i < a@.len() && j < b@.len() {
                assert(ra[0] == a@[i as int] && rb[0] == b@[j as int]);
                assert(views[a@[i as int] as int] == keys@[a@[i as int] as int]@);
                assert(views[b@[j as int] as int] == keys@[b@[j as int] as int]@);
            }
        }
        if take_left {
            proof {
                let rest = merged(views, *options, ra.drop_first(), rb);
                if rb.len() == 0 {
                    assert(merged(views, *options, ra.drop_first(), rb) =~= ra.drop_first()) by {
                        if ra.drop_first().len() == 0 {
                        }
                    }
                    assert(merged(views, *options, ra, rb) =~= seq![ra[0]] + rest);
                }
                assert(merged(views, *options, ra, rb) =~= seq![ra[0]] + rest);
                assert(out@.push(a@[i as int]) + rest =~= out@ + (seq![ra[0]] + rest));
            }
            out.push(a[i]);
            i += 1;
        } else {
            proof {
                let rest = merged(views, *options, ra, rb.drop_first());
                if ra.len() == 0 {
                    assert(merged(views, *options, ra, rb.drop_first()) =~= rb.drop_first());
                }
                assert(merged(views, *options, ra, rb) =~= seq![rb[0]] + rest);
                assert(out@.push(b@[j as int]) + rest =~= out@ + (seq![rb[0]] + rest));
            }
            out.push(b[j]);
            j += 1;
        }
    }
    assert(out@ =~= out@ + merged(views, *options, a@.skip(i as int), b@.skip(j as int)));
    out
}

/// Sorts the positions `s[lo..hi]`.
fn sort_range(keys: &Vec<EntryCache>, options: &SortOptions, s: &Vec<usize>, lo: usize, hi: usize) -> (out:
    Vec<usize>)
    requires
        lo <= hi <= s@.len(),
        all_below(s@, keys@.len()),
    ensures
        out@ == sorted_order(key_views(keys@), *options, s@.subrange(lo as int, hi as int)),
        all_below(out@, keys@.len()),
    decreases hi - lo,
{
    let ghost part = s@.subrange(lo as int, hi as int);
    proof {
        lemma_sorted_order_below(key_views(keys@), *options, part, keys@.len());
    }
    if hi - lo <= 1 {
        let mut out: Vec<usize> = Vec::new();
        if hi > lo {
            out.push(s[lo]);
        }
        out
    } else {
        let mid: usize = lo + (hi - lo) / 2;
        let left = sort_range(keys, options, s, lo, mid);
        let right = sort_range(keys, options, s, mid, hi);
        proof {
            let m = (part.len() / 2) as int;
            assert(part.take(m) =~= s@.subrange(lo as int, mid as int));
            assert(part.skip(m) =~= s@.subrange(mid as int, hi as int));
        }
        merge(keys, options, &left, &right)
    }
}

/// The positions of all keys in sorted order.
pub fn sort_indices(keys: &Vec<EntryCache>, options: &SortOptions) -> (order: Vec<usize>)
    ensures
        order@ == sorted_order(key_views(keys@), *options, identity(keys@.len())),
        order@.len() == keys@.len(),
        all_below(order@, keys@.len()),
        order@.no_duplicates(),
{
    let n: usize = keys.len();
    let mut all: Vec<usize> = Vec::new();
    let mut i: usize = 0;
    while i < n
        invariant
            i <= n,
            n == keys@.len(),
            all@ == identity(i as nat),
        decreases n - i,
    {
        all.push(i);
        i += 1;
    }
    proof {
        assert(all@.subrange(0, n as int) =~= all@);
        lemma_sorted_order_permutes(key_views(keys@), *options, all@);
        lemma_sorted_order_distinct(key_views(keys@), *options, all@);
    }
    sort_range(keys, options, &all, 0, n)
}

/// Sorts a list of positions by the keys they point to.
pub fn sort_positions(keys: &Vec<EntryCache>, options: &SortOptions, positions: &Vec<usize>) -> (order:
    Vec<usize>)
    requires
        all_below(positions@, keys@.len()),
    ensures
        order@ == sorted_order(key_views(keys@), *options, positions@),
        all_below(order@, keys@.len()),
{
    assert(positions@.subrange(0, positions@.len() as int) =~= positions@);
    sort_range(keys, options, positions, 0, positions.len())
}

} // verus!
